use proxmox_imgctl::flows::{
    spawn_flow_step, template_flow_step, SpawnAction, SpawnEvent, SpawnFlow, TemplateAction,
    TemplateEvent, TemplateFlow,
};

const RESOURCES: &str = r#"[{"vmid":9000,"name":"ubuntu-noble-template","template":1},
{"vmid":9001,"name":"debian","template":0},{"vmid":101,"name":"web","template":0}]"#;

const QM_LIST: &str = "      VMID NAME    STATUS\n       101 web     running\n      9000 tpl     stopped\n";

#[test]
fn template_default_vmid_is_lowest_free_from_9000() {
    let (s, a) = template_flow_step(&TemplateFlow::Start, &TemplateEvent::Begin);
    assert!(matches!(a, TemplateAction::ListResources));
    let (s, a) = template_flow_step(&s, &TemplateEvent::ResourcesListed(Some(RESOURCES.into())));
    assert!(matches!(s, TemplateFlow::AskingVmid));
    assert!(matches!(a, TemplateAction::AskVmid(9002)));
    // pvesh unreachable: 9000.
    let (_, a) = template_flow_step(&TemplateFlow::ScanningFree, &TemplateEvent::ResourcesListed(None));
    assert!(matches!(a, TemplateAction::AskVmid(9000)));
    // Everything from 9000 up taken: the cluster's next id, else 9000.
    let (_, a) = template_flow_step(
        &TemplateFlow::QueryingNextId,
        &TemplateEvent::NextIdPrinted(Some("\"105\"\n".into())),
    );
    assert!(matches!(a, TemplateAction::AskVmid(105)));
    let (_, a) = template_flow_step(&TemplateFlow::QueryingNextId, &TemplateEvent::NextIdPrinted(None));
    assert!(matches!(a, TemplateAction::AskVmid(9000)));
}

#[test]
fn template_refuses_an_existing_vmid_and_runs_commands_in_order() {
    let (s, a) = template_flow_step(&TemplateFlow::AskingVmid, &TemplateEvent::VmidEntered(9000));
    assert!(matches!(a, TemplateAction::ListVms(9000)));
    let (s2, a) = template_flow_step(&s, &TemplateEvent::VmsListed(Some(QM_LIST.into())));
    assert!(matches!(s2, TemplateFlow::Failed));
    assert!(matches!(a, TemplateAction::FailVmidTaken(9000)));

    let (s, _) = template_flow_step(&TemplateFlow::AskingVmid, &TemplateEvent::VmidEntered(9005));
    let (s, a) = template_flow_step(&s, &TemplateEvent::VmsListed(Some(QM_LIST.into())));
    assert!(matches!(a, TemplateAction::AskDetails));
    let (_, a) = template_flow_step(&s, &TemplateEvent::Confirmed(false));
    assert!(matches!(a, TemplateAction::Abort));
    let (s, a) = template_flow_step(&s, &TemplateEvent::Confirmed(true));
    assert!(matches!(a, TemplateAction::CreateShell));
    let (s, a) = template_flow_step(&s, &TemplateEvent::StepFinished(true));
    assert!(matches!(a, TemplateAction::ImportDisk));
    let (s, a) = template_flow_step(&s, &TemplateEvent::StepFinished(true));
    assert!(matches!(a, TemplateAction::AttachAndFinalize));
    let (_, a) = template_flow_step(&s, &TemplateEvent::StepFinished(false));
    assert!(matches!(a, TemplateAction::FailStep));
    let (_, a) = template_flow_step(&s, &TemplateEvent::StepFinished(true));
    assert!(matches!(a, TemplateAction::Finish));
    let (_, a) = template_flow_step(&TemplateFlow::Done, &TemplateEvent::StepFinished(true));
    assert!(matches!(a, TemplateAction::Unexpected));
}

#[test]
fn spawn_lists_templates_and_picks_a_default_vmid() {
    let (s, _) = spawn_flow_step(&SpawnFlow::Start, &SpawnEvent::Begin);
    let (s, a) = spawn_flow_step(&s, &SpawnEvent::ResourcesListed(Some(RESOURCES.into())));
    match a {
        SpawnAction::AskTemplate(t) => assert_eq!(t, vec![(9000, "ubuntu-noble-template".to_string())]),
        _ => panic!("templates expected"),
    }
    let (_, a) = spawn_flow_step(
        &SpawnFlow::ListingTemplates,
        &SpawnEvent::ResourcesListed(Some("[]".into())),
    );
    assert!(matches!(a, SpawnAction::ReportNoTemplates));
    let (s, a) = spawn_flow_step(&s, &SpawnEvent::TemplatePicked(9000));
    assert!(matches!(a, SpawnAction::QueryNextId));
    let (_, a) = spawn_flow_step(&s, &SpawnEvent::NextIdPrinted(Some("102\n".into())));
    assert!(matches!(a, SpawnAction::AskVmid(102)));
    let (_, a) = spawn_flow_step(&s, &SpawnEvent::NextIdPrinted(None));
    assert!(matches!(a, SpawnAction::AskVmid(9001)));
    let (_, a) = spawn_flow_step(&SpawnFlow::QueryingNextId(5), &SpawnEvent::NextIdPrinted(None));
    assert!(matches!(a, SpawnAction::AskVmid(100)));
    let (_, a) = spawn_flow_step(
        &SpawnFlow::QueryingNextId(u32::MAX),
        &SpawnEvent::NextIdPrinted(None),
    );
    assert!(matches!(a, SpawnAction::FailNoDefaultVmid));
}

#[test]
fn spawn_starts_the_vm_only_when_asked() {
    let run = |start_after: bool| {
        let mut actions = Vec::new();
        let (mut s, _) = spawn_flow_step(
            &SpawnFlow::Confirming,
            &SpawnEvent::Confirmed { proceed: true, start_after },
        );
        loop {
            let (n, a) = spawn_flow_step(&s, &SpawnEvent::StepFinished(true));
            s = n;
            match a {
                SpawnAction::Finish => break,
                SpawnAction::ApplySettings => actions.push("set"),
                SpawnAction::ResizeDisk => actions.push("resize"),
                SpawnAction::StartVm => actions.push("start"),
                _ => panic!("unexpected action"),
            }
        }
        actions
    };
    assert_eq!(run(true), vec!["set", "resize", "start"]);
    assert_eq!(run(false), vec!["set", "resize"]);
    let (_, a) = spawn_flow_step(
        &SpawnFlow::Confirming,
        &SpawnEvent::Confirmed { proceed: false, start_after: true },
    );
    assert!(matches!(a, SpawnAction::Abort));
    let (s, _) = spawn_flow_step(&SpawnFlow::AskingVmid, &SpawnEvent::VmidEntered(101));
    let (_, a) = spawn_flow_step(&s, &SpawnEvent::VmsListed(Some(QM_LIST.into())));
    assert!(matches!(a, SpawnAction::FailVmidTaken(101)));
}
