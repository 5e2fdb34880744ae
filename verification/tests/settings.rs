use etr::addrfam::AddrPref;
use etr::config::{ClientConfig, ServerConfig};
use etr::settings::{
    choose_list, choose_path, effective_bind_ip, effective_gateway, effective_pref,
    effective_reconnect_timeout, effective_server_path, effective_ssh_port, effective_x11,
    forwarded_variables, host_of, parse_forwards, remote_command, resolve_env, server_pref,
    shell_command, shell_env, ssh_family_flag, with_forwarded,
};

fn strings(l: &[&str]) -> Vec<String> {
    l.iter().map(|s| s.to_string()).collect()
}

#[test]
fn test_remote_command_single_arg() {
    assert_eq!(
        remote_command(&strings(&["distrobox -- btop"])).as_deref(),
        Some("distrobox -- btop")
    );
}

#[test]
fn test_remote_command_multi_word() {
    assert_eq!(remote_command(&strings(&["ls", "-la", "/tmp"])).as_deref(), Some("ls -la /tmp"));
}

#[test]
fn test_remote_command_empty_without_args() {
    assert_eq!(remote_command(&vec![]), None);
    assert_eq!(remote_command(&strings(&[""])), None);
}

#[test]
fn test_log_paths_fallback_to_config() {
    let cfg = ClientConfig {
        log_path: Some("/config/client.log".into()),
        server_log_path: Some("/config/server.log".into()),
        ..Default::default()
    };
    assert_eq!(choose_path(&None, &cfg.log_path).as_deref(), Some("/config/client.log"));
    assert_eq!(choose_path(&None, &cfg.server_log_path).as_deref(), Some("/config/server.log"));
    let cli = Some("/cli.log".to_string());
    assert_eq!(choose_path(&cli, &cfg.log_path).as_deref(), Some("/cli.log"));
    assert_eq!(choose_path(&None, &None), None);
}

#[test]
fn test_reconnect_timeout_env_var() {
    let cfg = ServerConfig { reconnect_timeout: Some(60), ..Default::default() };
    assert_eq!(effective_reconnect_timeout(None, Some("7200"), &cfg), 7200);
    assert_eq!(effective_reconnect_timeout(Some(5), Some("7200"), &cfg), 5);
    assert_eq!(effective_reconnect_timeout(None, Some("soon"), &cfg), 60);
    assert_eq!(effective_reconnect_timeout(None, None, &cfg), 60);
    assert_eq!(effective_reconnect_timeout(None, None, &ServerConfig::default()), 1800);
}

#[test]
fn the_command_line_comes_first() {
    let cfg = ClientConfig {
        ssh_port: Some(2222),
        server_path: Some("/cfg".into()),
        gateway_ports: Some(true),
        x11_trusted: Some(true),
        ..Default::default()
    };
    let none = ClientConfig::default();
    assert_eq!(effective_ssh_port(Some(1), &cfg), 1);
    assert_eq!(effective_ssh_port(None, &cfg), 2222);
    assert_eq!(effective_ssh_port(None, &none), 22);
    assert_eq!(effective_server_path(&Some("/cli".into()), &cfg), "/cli");
    assert_eq!(effective_server_path(&None, &cfg), "/cfg");
    assert_eq!(effective_server_path(&None, &none), "etrs");
    assert!(effective_gateway(false, &cfg) && effective_gateway(true, &none));
    assert!(!effective_gateway(false, &none));
    assert!(effective_x11(false, false, &cfg) && !effective_x11(false, false, &none));
    assert!(effective_x11(true, false, &none) && effective_x11(false, true, &none));
    assert_eq!(effective_pref(true, false, &Some("ipv6".into())), AddrPref::Ipv4);
    assert_eq!(effective_pref(false, false, &Some("ipv6".into())), AddrPref::Ipv6);
    assert_eq!(effective_pref(false, false, &None), AddrPref::Auto);
}

#[test]
fn lists_of_the_configuration_serve_where_there_are_none() {
    let cli = strings(&["1:a:1"]);
    let cfg = Some(strings(&["2:b:2"]));
    assert_eq!(choose_list(&cli, &cfg), &cli);
    assert_eq!(choose_list(&vec![], &cfg), &strings(&["2:b:2"]));
    assert!(choose_list(&vec![], &None).is_empty());
}

#[test]
fn the_first_bad_forward_is_reported() {
    let specs = parse_forwards(&strings(&["1:a:2", "3:b:4/udp"])).unwrap();
    assert_eq!(specs.len(), 2);
    assert_eq!(specs[1].to_text(), "3:b:4/udp");
    let err = parse_forwards(&strings(&["1:a:2", "bad", "x:y:z"])).unwrap_err();
    assert!(err.starts_with("invalid spec 'bad'"));
}

#[test]
fn hosts_stand_behind_the_first_at_sign() {
    assert_eq!(host_of("me@host"), "host");
    assert_eq!(host_of("host"), "host");
    assert_eq!(host_of("a@b@c"), "b@c");
}

#[test]
fn variables_are_set_or_forwarded() {
    let raw = strings(&["A=1", "HOME", "NOPE", "B="]);
    let local = vec![None, Some("/root".to_string()), None, Some("x".to_string())];
    assert_eq!(resolve_env(&raw, &local), vec!["A=1", "HOME=/root", "B="]);
}

#[test]
fn explicit_settings_beat_forwarded_ones() {
    let keys = forwarded_variables();
    assert_eq!(keys.len(), 11);
    let mut local = vec![None; 11];
    local[0] = Some("C".to_string());
    local[8] = Some("truecolor".to_string());
    let env = with_forwarded(strings(&["LANG=de", "X=1"]), &local);
    assert_eq!(env, vec!["COLORTERM=truecolor", "LANG=de", "X=1"]);
    let env = with_forwarded(strings(&["LANGUAGE=de"]), &local);
    assert_eq!(env, vec!["LANG=C", "COLORTERM=truecolor", "LANGUAGE=de"]);
}

#[test]
fn the_shell_gets_its_environment() {
    let vars = shell_env(Some(10), "xterm", "1.2", Some("::1 1 ::1 2"), &strings(&["K=a=b", "no"]));
    let text: Vec<String> = vars.iter().map(|(k, v)| format!("{k}={v}")).collect();
    assert_eq!(
        text,
        vec![
            "DISPLAY=localhost:10.0",
            "TERM=xterm",
            "ETR_CONNECTION=1",
            "ETR_VERSION=1.2",
            "SSH_CONNECTION=::1 1 ::1 2",
            "K=a=b",
        ]
    );
    assert_eq!(shell_env(None, "vt", "1", None, &vec![]).len(), 3);
}

#[test]
fn commands_run_in_a_shell() {
    let cmd = Some("ls".to_string());
    assert_eq!(shell_command(&cmd, Some("/bin/zsh")).unwrap(), vec!["/bin/zsh", "-c", "ls"]);
    assert_eq!(shell_command(&cmd, None).unwrap(), vec!["/bin/sh", "-c", "ls"]);
    assert_eq!(shell_command(&None, Some("/bin/zsh")), None);
}

#[test]
fn the_server_binds_both_families_unless_told_otherwise() {
    assert_eq!(effective_bind_ip(None, AddrPref::Auto), "[::]");
    assert_eq!(effective_bind_ip(None, AddrPref::Ipv6), "[::]");
    assert_eq!(effective_bind_ip(None, AddrPref::Ipv4), "0.0.0.0");
    assert_eq!(effective_bind_ip(Some("10.0.0.1"), AddrPref::Ipv4), "10.0.0.1");
    assert_eq!(server_pref(AddrPref::Auto, AddrPref::Ipv4), AddrPref::Ipv4);
    assert_eq!(server_pref(AddrPref::Ipv6, AddrPref::Ipv4), AddrPref::Ipv6);
}

#[test]
fn ssh_gets_a_family_only_where_the_host_has_it() {
    assert_eq!(ssh_family_flag(AddrPref::Ipv4, true), Some("-4"));
    assert_eq!(ssh_family_flag(AddrPref::Ipv6, true), Some("-6"));
    assert_eq!(ssh_family_flag(AddrPref::Ipv6, false), None);
    assert_eq!(ssh_family_flag(AddrPref::Auto, true), None);
}
