use yxorp::addr::IpAddr;
use yxorp::config::{
    L4Mode, L4Protocol, L4RealServerConfig, L4Scheduler, L4ServiceConfig, ProxyConfig,
};
use yxorp::l4::{
    command_outcome, domain_summary, render_config_plan, write_shell_arg, CommandOutput,
    IpvsCommand, L4Error, L4Reconciler, L4State,
};

fn service() -> L4ServiceConfig {
    L4ServiceConfig {
        name: "edge-web".to_string(),
        domains: vec!["example.com".to_string(), "www.example.com".to_string()],
        vip: IpAddr::v4(192, 0, 2, 10),
        port: 443,
        protocol: L4Protocol::Tcp,
        scheduler: L4Scheduler::Wrr,
        mode: L4Mode::IpvsDsr,
        real_servers: vec![
            L4RealServerConfig { address: IpAddr::v4(10, 0, 0, 11), port: 443, weight: 2 },
            L4RealServerConfig { address: IpAddr::v4(10, 0, 0, 12), port: 443, weight: 1 },
        ],
        ..L4ServiceConfig::default()
    }
}

#[test]
fn renders_ipvs_dsr_plan() {
    let commands = L4Reconciler::reconcile(&vec![], &vec![service()]);
    let rendered = commands.iter().map(|c| c.to_text()).collect::<Vec<_>>();
    assert_eq!(
        rendered,
        vec![
            "/usr/sbin/ipvsadm -D -t 192.0.2.10:443  # ignore failure",
            "/usr/sbin/ipvsadm -A -t 192.0.2.10:443 -s wrr",
            "/usr/sbin/ipvsadm -a -t 192.0.2.10:443 -r 10.0.0.11:443 -g -w 2",
            "/usr/sbin/ipvsadm -a -t 192.0.2.10:443 -r 10.0.0.12:443 -g -w 1",
        ]
    );
}

#[test]
fn deletes_previous_service_on_reconcile() {
    let mut previous = service();
    previous.vip = IpAddr::v4(192, 0, 2, 20);
    let rendered = L4Reconciler::render_plan(&vec![previous], &vec![service()]);
    assert!(rendered.contains("ipvsadm -D -t 192.0.2.20:443"));
    assert!(rendered.contains("ipvsadm -A -t 192.0.2.10:443 -s wrr"));
}

#[test]
fn each_service_is_deleted_once() {
    let commands = L4Reconciler::reconcile(&vec![service()], &vec![service()]);
    let deletions = commands.iter().filter(|c| c.args()[0] == "-D").count();
    assert_eq!(deletions, 1);
    let mut udp = service();
    udp.protocol = L4Protocol::Udp;
    let commands = L4Reconciler::reconcile(&vec![service()], &vec![udp]);
    assert_eq!(commands[0].to_text(), "/usr/sbin/ipvsadm -D -t 192.0.2.10:443  # ignore failure");
    assert_eq!(commands[1].to_text(), "/usr/sbin/ipvsadm -D -u 192.0.2.10:443  # ignore failure");
    assert_eq!(commands.len(), 5);
}

#[test]
fn nothing_to_do_is_said() {
    assert_eq!(L4Reconciler::render_plan(&vec![], &vec![]), "# no l4 ipvs changes\n");
    let config = ProxyConfig { l4_services: vec![service()], ..ProxyConfig::default() };
    let plan = render_config_plan(&config);
    assert_eq!(plan.lines().count(), 4);
    assert!(plan.ends_with("-w 1\n"));
    assert_eq!(L4State::new(&config).services().len(), 1);
}

#[test]
fn shell_arguments_are_quoted() {
    for (arg, text) in [
        ("a.b:c_d-e/F9", "a.b:c_d-e/F9"),
        ("", ""),
        ("a b", "'a b'"),
        ("it's", "'it'\\''s'"),
        ("ü", "'ü'"),
    ] {
        let mut out = String::from(">");
        write_shell_arg(&mut out, arg);
        assert_eq!(out, format!(">{text}"));
    }
}

#[test]
fn summary_lists_domains_in_order() {
    let mut s = service();
    s.domains = ["b", "a", "c", "a"].iter().map(|d| d.to_string()).collect();
    let mut t = service();
    t.name = "other".to_string();
    t.protocol = L4Protocol::Udp;
    let config = ProxyConfig { l4_services: vec![s, t], ..ProxyConfig::default() };
    assert_eq!(
        domain_summary(&config),
        "edge-web: a, b, c -> 192.0.2.10:443 tcp\nother: example.com, www.example.com -> 192.0.2.10:443 udp"
    );
}

#[test]
fn preflight_tells_what_is_missing() {
    assert!(L4Reconciler::preflight(false, None, None).is_ok());
    assert!(L4Reconciler::preflight(true, Some(true), Some(true)).is_ok());
    for (version, list) in [(None, None), (Some(false), Some(true)), (Some(true), None)] {
        let e = L4Reconciler::preflight(true, version, list).unwrap_err();
        assert!(matches!(e, L4Error::MissingIpvsadm));
        assert_eq!(
            e.message(),
            "ipvsadm is required for l4_services but was not found or is not executable"
        );
    }
    let e = L4Reconciler::preflight(true, Some(true), Some(false)).unwrap_err();
    assert_eq!(
        e.message(),
        "ipvsadm preflight failed; l4_services require Linux IPVS and CAP_NET_ADMIN/root"
    );
}

#[test]
fn failed_commands_are_reported() {
    let command = |ignore_failure| IpvsCommand {
        args: vec!["-A".to_string(), "x\"y".to_string()],
        ignore_failure,
    };
    let output = |success| {
        Ok(CommandOutput {
            success,
            status: "exit status: 1".to_string(),
            stderr: " bad\n".to_string(),
        })
    };
    assert!(command_outcome(&command(false), output(true)).is_ok());
    assert!(command_outcome(&command(true), output(false)).is_ok());
    let e = command_outcome(&command(false), output(false)).unwrap_err();
    assert_eq!(e.message(), "ipvsadm [\"-A\", \"x\\\"y\"] failed with status exit status: 1: bad");
    let e = command_outcome(&command(true), Err("not found".to_string())).unwrap_err();
    assert_eq!(e.message(), "failed to run ipvsadm [\"-A\", \"x\\\"y\"]: not found");
    assert_eq!(e.message_with("X"), "failed to run ipvsadm X: not found");
}
