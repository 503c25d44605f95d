use proxmox_imgctl::commands::{
    apply_clone_settings, attach_imported_disk_and_finalize_template, clone_template,
    create_vm_shell, import_disk, import_disk_legacy, quote_args, resize_disk,
    import_after_modern, mentions_unknown_subcommand, sequence_step, should_retry_legacy_import,
    start_vm, ImportDecision, SequenceStep,
};

fn words(v: &[String]) -> Vec<&str> {
    v.iter().map(|s| s.as_str()).collect()
}

#[test]
fn create_vm_shell_builds_the_qm_create_line() {
    let c = create_vm_shell(9000, "ubuntu-noble-template", "local-lvm", "vmbr0", 1024, 1, "l26");
    assert_eq!(
        words(&c),
        vec![
            "qm", "create", "9000", "--name", "ubuntu-noble-template", "--machine", "q35",
            "--bios", "ovmf", "--efidisk0", "local-lvm:0,efitype=4m,pre-enrolled-keys=1",
            "--cpu", "host", "--cores", "1", "--sockets", "1", "--memory", "1024", "--net0",
            "virtio,bridge=vmbr0", "--serial0", "socket", "--vga", "serial0", "--ostype", "l26",
            "--scsihw", "virtio-scsi-pci", "--agent", "enabled=1",
        ]
    );
}

#[test]
fn template_finalization_steps() {
    let c = attach_imported_disk_and_finalize_template(9000, "local-lvm");
    assert_eq!(c.len(), 4);
    assert_eq!(words(&c[0]), vec!["qm", "set", "9000", "--virtio0", "local-lvm:vm-9000-disk-1"]);
    assert_eq!(words(&c[1]), vec!["qm", "set", "9000", "--boot", "order=virtio0"]);
    assert_eq!(words(&c[2]), vec!["qm", "set", "9000", "--ide2", "local-lvm:cloudinit"]);
    assert_eq!(words(&c[3]), vec!["qm", "template", "9000"]);
}

#[test]
fn clone_resize_start_and_settings() {
    assert_eq!(
        words(&clone_template(9000, 101, "web-01", "local-lvm")),
        vec!["qm", "clone", "9000", "101", "--name", "web-01", "--full", "--storage", "local-lvm"]
    );
    assert_eq!(
        words(&apply_clone_settings(101, 2, 2048, "local", "dev.yaml")),
        vec![
            "qm", "set", "101", "--cores", "2", "--memory", "2048", "--balloon", "0",
            "--cicustom", "user=local:snippets/dev.yaml", "--ipconfig0", "ip=dhcp",
        ]
    );
    assert_eq!(words(&resize_disk(101, 32)), vec!["qm", "resize", "101", "virtio0", "32G"]);
    assert_eq!(words(&start_vm(0)), vec!["qm", "start", "0"]);
    assert_eq!(
        words(&import_disk(9000, "/c/u.img", "local-lvm")),
        vec!["qm", "disk", "import", "9000", "/c/u.img", "local-lvm"]
    );
    assert_eq!(
        words(&import_disk_legacy(9000, "/c/u.img", "local-lvm")),
        vec!["qm", "importdisk", "9000", "/c/u.img", "local-lvm"]
    );
}

#[test]
fn quoting_only_where_needed() {
    let args: Vec<String> =
        ["qm", "create", "9000", "--name", "my vm", "", "it's", "a$b", "tab\there"]
            .iter()
            .map(|s| s.to_string())
            .collect();
    assert_eq!(
        quote_args(&args),
        "qm create 9000 --name 'my vm' '' 'it'\\''s' 'a$b' 'tab\there'"
    );
    assert_eq!(quote_args(&Vec::new()), "");
}

#[test]
fn legacy_import_only_on_cli_syntax_errors() {
    assert!(should_retry_legacy_import("qm disk import 9000 x y failed (status 255): Unknown command 'disk'"));
    assert!(should_retry_legacy_import("400 Parameter verification failed."));
    assert!(should_retry_legacy_import("USAGE: qm <COMMAND>"));
    assert!(should_retry_legacy_import("no such command"));
    assert!(should_retry_legacy_import("unknown action"));
    assert!(!should_retry_legacy_import("storage 'local-lvm' is full"));
    assert!(!should_retry_legacy_import(""));
}

#[test]
fn import_falls_back_only_on_syntax_errors() {
    assert!(matches!(import_after_modern(None), ImportDecision::Done));
    assert!(matches!(
        import_after_modern(Some("qm disk import failed: Unknown command 'disk'")),
        ImportDecision::RetryLegacy
    ));
    assert!(matches!(
        import_after_modern(Some("USAGE: qm <COMMAND> [ARGS]")),
        ImportDecision::RetryLegacy
    ));
    assert!(matches!(
        import_after_modern(Some("storage 'local-lvm' is full")),
        ImportDecision::Propagate
    ));
    assert!(mentions_unknown_subcommand("usage: qm"));
    assert!(!mentions_unknown_subcommand("USAGE: qm"));
}

#[test]
fn commands_stop_at_first_failure() {
    assert!(matches!(sequence_step(4, 0, true), SequenceStep::Run(0)));
    assert!(matches!(sequence_step(4, 0, false), SequenceStep::Run(0)));
    assert!(matches!(sequence_step(4, 2, true), SequenceStep::Run(2)));
    assert!(matches!(sequence_step(4, 2, false), SequenceStep::Stop));
    assert!(matches!(sequence_step(4, 4, true), SequenceStep::Finished));
    assert!(matches!(sequence_step(4, 4, false), SequenceStep::Stop));
    assert!(matches!(sequence_step(0, 0, true), SequenceStep::Finished));
    // Outcomes ok, ok, fail, ok: three commands run.
    let outcomes = [true, true, false, true];
    let (mut ran, mut last) = (0usize, true);
    loop {
        match sequence_step(outcomes.len(), ran, last) {
            SequenceStep::Run(i) => {
                last = outcomes[i];
                ran += 1;
            }
            _ => break,
        }
    }
    assert_eq!(ran, 3);
}

/// Splits a line as a POSIX shell does, for the quoting that `quote_args` uses.
fn shell_words(line: &str) -> Vec<String> {
    let mut words = Vec::new();
    let mut cur = String::new();
    let (mut quoted, mut in_word) = (false, false);
    let mut chars = line.chars();
    while let Some(c) = chars.next() {
        if quoted {
            if c == '\'' {
                quoted = false;
            } else {
                cur.push(c);
            }
        } else if c == '\'' {
            quoted = true;
            in_word = true;
        } else if c == '\\' {
            if let Some(n) = chars.next() {
                cur.push(n);
                in_word = true;
            }
        } else if c == ' ' {
            if in_word {
                words.push(std::mem::take(&mut cur));
                in_word = false;
            }
        } else {
            cur.push(c);
            in_word = true;
        }
    }
    if in_word {
        words.push(cur);
    }
    words
}

#[test]
fn quoted_line_splits_back_into_the_arguments() {
    let args: Vec<String> = ["qm", "set", "it's", "a b", "", "x\"y", "$HOME", "back\\slash", "tab\there"]
        .iter()
        .map(|s| s.to_string())
        .collect();
    assert_eq!(shell_words(&quote_args(&args)), args);
}

#[test]
fn dry_run_lines_as_the_readme_shows_them() {
    let lines: Vec<String> = attach_imported_disk_and_finalize_template(9000, "local-lvm")
        .iter()
        .map(quote_args)
        .collect();
    assert_eq!(
        lines,
        vec![
            "qm set 9000 --virtio0 'local-lvm:vm-9000-disk-1'",
            "qm set 9000 --boot order=virtio0",
            "qm set 9000 --ide2 'local-lvm:cloudinit'",
            "qm template 9000",
        ]
    );
    assert_eq!(
        quote_args(&import_disk(
            9000,
            "/var/lib/proxmox-imgctl/cache/ubuntu-24.04-noble.img",
            "local-lvm"
        )),
        "qm disk import 9000 /var/lib/proxmox-imgctl/cache/ubuntu-24.04-noble.img local-lvm"
    );
    let create = quote_args(&create_vm_shell(
        9000,
        "ubuntu-noble-template",
        "local-lvm",
        "vmbr0",
        1024,
        1,
        "l26",
    ));
    assert!(create.starts_with(
        "qm create 9000 --name 'ubuntu-noble-template' --machine q35 --bios ovmf "
    ));
}
