use proxmox_imgctl::catalog::{catalog, HashAlgo};
use proxmox_imgctl::choices::{default_storage_index, fallback_clone_vmid, template_choice_label};
use proxmox_imgctl::cli::{parse_args, CliAction};
use proxmox_imgctl::config::Config;

fn args(a: &[&str]) -> Vec<String> {
    a.iter().map(|s| s.to_string()).collect()
}

#[test]
fn command_line_flags() {
    assert!(matches!(parse_args(&args(&[])), CliAction::Run { dry_run: false }));
    assert!(matches!(parse_args(&args(&["-n"])), CliAction::Run { dry_run: true }));
    assert!(matches!(parse_args(&args(&["--dry-run", "-n"])), CliAction::Run { dry_run: true }));
    assert!(matches!(parse_args(&args(&["--bogus", "-h"])), CliAction::Help));
    assert!(matches!(parse_args(&args(&["--help"])), CliAction::Help));
    match parse_args(&args(&["-n", "x", "--y"])) {
        CliAction::Unknown(u) => assert_eq!(u, args(&["x", "--y"])),
        _ => panic!("unknown arguments expected"),
    }
}

#[test]
fn catalog_labels_and_cache_files() {
    let c = catalog();
    assert_eq!(c.len(), 6);
    assert_eq!(c[1].label(), "Ubuntu 24.04 (noble)");
    assert_eq!(c[1].cache_filename(), "ubuntu-24.04-noble.img");
    assert_eq!(c[1].template_name(), "ubuntu-noble-template");
    assert_eq!(c[4].cache_filename(), "debian-12-bookworm.qcow2");
    assert_eq!(c[4].sums_algo, HashAlgo::Sha512);
    for img in &c {
        assert!(img.image_url.ends_with(img.sums_filename));
    }
}

#[test]
fn menu_defaults() {
    let pools = args(&["local", "local-lvm", "nfs"]);
    assert_eq!(default_storage_index(&pools, "local-lvm"), 1);
    assert_eq!(default_storage_index(&pools, "zfs"), 0);
    assert_eq!(template_choice_label(9000, "ubuntu"), "9000 \u{2014} ubuntu");
    assert_eq!(fallback_clone_vmid(9000), 9001);
    assert_eq!(fallback_clone_vmid(5), 100);
}

#[test]
fn default_config() {
    let c = Config::default();
    assert_eq!(c.storage, "local-lvm");
    assert_eq!(c.snippet_storage, "local");
    assert_eq!(c.snippet_dir, "/var/lib/vz/snippets");
    assert_eq!(c.bridge, "vmbr0");
    assert_eq!(c.cache_dir, "/var/lib/proxmox-imgctl/cache");
}

#[test]
fn cached_images_never_share_a_file() {
    let names: Vec<String> = catalog().iter().map(|i| i.cache_filename()).collect();
    for (i, a) in names.iter().enumerate() {
        for b in &names[i + 1..] {
            assert_ne!(a, b);
        }
    }
    assert_eq!(names[0], "ubuntu-26.04-resolute.img");
    assert_eq!(names[5], "debian-11-bullseye.qcow2");
}

#[test]
fn names_with_a_given_lower_case_distro() {
    let c = catalog();
    assert_eq!(c[1].cache_filename_with("x"), "x-24.04-noble.img");
    assert_eq!(c[3].template_name_with("deb"), "deb-trixie-template");
}
