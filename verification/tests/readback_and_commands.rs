use grimmnetz::config::{parse_config, render_config, RenderedConfig};
use grimmnetz::files::{sftp_mkdir_command, sftp_rename_command};
use grimmnetz::games::{ConfigField, ConfigSchema, GameInstall, GameTemplate};
use grimmnetz::install::is_docker_install;
use grimmnetz::paths::ssh_key_keyring_name;
use grimmnetz::instances::hardware_probe_commands;
use grimmnetz::restarts::{timer_install_command, RestartTimerFiles};
use grimmnetz::versions::{server_properties_command, steam_version_info};

fn field(key: &str, default: &str) -> ConfigField {
    ConfigField {
        key: key.to_string(),
        label: key.to_string(),
        field_type: "text".to_string(),
        default: default.to_string(),
        opens_port_protocol: None,
        options: None,
        hint: None,
    }
}

fn schema(format: &str, fields: Vec<ConfigField>) -> ConfigSchema {
    ConfigSchema { file: "settings".to_string(), format: format.to_string(), fields }
}

fn pairs(v: &[(&str, &str)]) -> Vec<(String, String)> {
    v.iter().map(|(k, x)| (k.to_string(), x.to_string())).collect()
}

fn text_of(r: RenderedConfig) -> String {
    match r {
        RenderedConfig::Text(t) => t,
        RenderedConfig::JsonUpdates(_) => panic!("expected text"),
    }
}

#[test]
fn xml_save_keeps_other_properties() {
    let writer = schema("xml-properties", vec![field("ServerName", "Default")]);
    let reader = schema("xml-properties", vec![field("ServerName", "Default"), field("Other", "none")]);
    let raw = "<ServerSettings>\n  <property name=\"ServerName\" value=\"Old\"/>\n  <property name=\"Other\" value=\"x\"/>\n</ServerSettings>";
    let saved = text_of(render_config(&writer, raw, &pairs(&[("ServerName", "New")])));
    assert_eq!(parse_config(&reader, &saved), pairs(&[("ServerName", "New"), ("Other", "x")]));
    assert_eq!(parse_config(&reader, raw), pairs(&[("ServerName", "Old"), ("Other", "x")]));
}

#[test]
fn palworld_save_keeps_other_settings() {
    let writer = schema("palworld-ini", vec![field("ServerName", "Default")]);
    let reader = schema("palworld-ini", vec![field("ServerName", "Default"), field("Difficulty", "Normal")]);
    let raw = "OptionSettings=(Difficulty=None,ServerName=\"Old\")\n";
    let saved = text_of(render_config(&writer, raw, &pairs(&[("ServerName", "Fresh")])));
    assert_eq!(parse_config(&reader, &saved), pairs(&[("ServerName", "Fresh"), ("Difficulty", "None")]));
}

#[test]
fn steam_manifest_versions() {
    let raw = "\"AppState\"\n{\n\t\"appid\"\t\t\"896660\"\n\t\"buildid\"\t\t\"1234567\"\n}\n";
    let info = steam_version_info(raw);
    assert_eq!(info.installed, Some("1234567".to_string()));
    assert_eq!(info.latest, None);
    assert!(info.up_to_date);
    let none = steam_version_info("no manifest");
    assert_eq!(none.installed, None);
    assert!(none.up_to_date);
}

#[test]
fn properties_file_command() {
    assert_eq!(
        server_properties_command("/opt/gs/mc"),
        "sudo cat '/opt/gs/mc/server.properties' 2>/dev/null"
    );
}

#[test]
fn restart_timer_install() {
    let files = RestartTimerFiles {
        unit_name: "grimmnetz-restart-abc".to_string(),
        service_contents: String::new(),
        timer_contents: "[Timer]\nOnCalendar=*-*-* 04:00:00\n".to_string(),
    };
    assert_eq!(
        timer_install_command(&files),
        "sudo tee /etc/systemd/system/grimmnetz-restart-abc.timer > /dev/null <<'GRIMMNETZ_EOF'\n[Timer]\nOnCalendar=*-*-* 04:00:00\nGRIMMNETZ_EOF\nsudo systemctl daemon-reload && sudo systemctl enable --now grimmnetz-restart-abc.timer"
    );
}

fn template(install_type: &str) -> GameTemplate {
    GameTemplate {
        id: "g".to_string(),
        name: "g".to_string(),
        subtitle: String::new(),
        icon: String::new(),
        requires: vec![],
        install: GameInstall { install_type: install_type.to_string(), app_id: None, steps: vec![] },
        start_command: String::new(),
        default_cpu_limit_percent: 100,
        default_ram_limit_mb: 1024,
        config: None,
        ports: vec![],
        tested_on: vec![],
        console_say_format: String::new(),
        rcon: None,
    }
}

#[test]
fn docker_installs_are_recognised() {
    assert!(is_docker_install(&template("docker")));
    assert!(!is_docker_install(&template("steamcmd")));
    assert!(!is_docker_install(&template("Docker")));
}

#[test]
fn host_hardware_probes() {
    let (cpu, mem, disk) = hardware_probe_commands();
    assert_eq!(cpu, "top -bn1 | grep 'Cpu(s)' | awk '{print $2}'");
    assert_eq!(mem, "free -m | awk '/Mem:/ {print $3\" \"$2}'");
    assert_eq!(disk, "df -BG / | awk 'NR==2 {gsub(\"G\",\"\"); print $3\" \"$2}'");
}

#[test]
fn units_run_games_as_gameserver_only() {
    let unit = grimmnetz::provisioning::render_systemd_unit(
        "abc",
        "/home/gameserver/instances/abc",
        "./start.sh --name 'User=root'",
        4096,
        200,
    );
    let user_lines: Vec<&str> = unit.lines().filter(|l| l.starts_with('U')).collect();
    assert_eq!(user_lines, vec!["User=gameserver"]);
    assert!(unit.contains("ExecStart=/bin/bash -c './start.sh --name '\\''User=root'\\'''\n"));
    assert!(unit.contains("MemoryHigh=3686M\n"));
}

#[test]
fn every_server_has_its_own_key_entry() {
    let a = ssh_key_keyring_name("0f1e2d3c-aaaa-bbbb-cccc-000000000001");
    let b = ssh_key_keyring_name("0f1e2d3c-aaaa-bbbb-cccc-000000000002");
    assert_ne!(a, b);
    assert_eq!(a, "0f1e2d3c-aaaa-bbbb-cccc-000000000001::ssh_key");
    assert_ne!(a, "0f1e2d3c-aaaa-bbbb-cccc-000000000001");
}

#[test]
fn refused_browser_paths_say_why() {
    assert_eq!(sftp_mkdir_command("/srv/x").unwrap_err(), "Pfad außerhalb des zulässigen Bereichs");
    assert_eq!(sftp_mkdir_command("/home/gameserver/a/../b").unwrap_err(), "Ungültiger Pfad");
    assert_eq!(
        sftp_rename_command("/home/gameserver/a", "/tmp/b").unwrap_err(),
        "Pfad außerhalb des zulässigen Bereichs"
    );
    assert_eq!(sftp_rename_command("/home/gameserver/..", "/etc").unwrap_err(), "Ungültiger Pfad");
    assert_eq!(
        sftp_rename_command("/home/gameserver/a", "/home/gameserver/b").unwrap(),
        "sudo -u gameserver mv '/home/gameserver/a' '/home/gameserver/b'"
    );
}

#[test]
fn xml_fields_missing_from_the_file_are_added() {
    let s = schema("xml-properties", vec![field("ServerName", "Default"), field("ServerPort", "26900")]);
    let out = text_of(render_config(&s, "<root>\n</root>\n", &pairs(&[("ServerPort", "26901")])));
    assert_eq!(out, "<root>\n  <property name=\"ServerPort\" value=\"26901\"/>\n</root>");
    assert_eq!(parse_config(&s, &out), pairs(&[("ServerName", "Default"), ("ServerPort", "26901")]));
    let flat = text_of(render_config(&s, "", &pairs(&[("ServerName", "X")])));
    assert_eq!(flat, "  <property name=\"ServerName\" value=\"X\"/>");
    let same = text_of(render_config(&s, "<root>\n</root>", &pairs(&[])));
    assert_eq!(same, "<root>\n</root>");
}

#[test]
fn removal_guard_refuses_ids_with_a_dot() {
    assert!(grimmnetz::paths::validate_instance_path("/home/gameserver/instances/a.b", "a.b").is_err());
    assert_eq!(
        grimmnetz::paths::validate_instance_path("/home/gameserver/instances/a.b", "a.b").unwrap_err(),
        "Ungültige instance_id: \"a.b\""
    );
    assert!(grimmnetz::paths::validate_instance_path("/home/gameserver/instances/ab", "ab").is_ok());
}

#[test]
fn saving_nothing_changes_nothing() {
    let props = schema("properties", vec![field("motd", "x")]);
    let raw = "# c\nmotd = Hi\nother=1\n";
    assert_eq!(text_of(render_config(&props, raw, &pairs(&[("unrelated", "9")]))), "# c\nmotd = Hi\nother=1");
    let xml = schema("xml-properties", vec![field("Name", "x")]);
    let raw = "<r>\n  <property name=\"Name\" value=\"a\"/>\n</r>";
    assert_eq!(text_of(render_config(&xml, raw, &pairs(&[]))), raw);
}

#[test]
fn quoting_length_counts_each_inner_quote() {
    let s = "it's a 'test'";
    let q = grimmnetz::games::shell_single_quote(s);
    assert_eq!(q.len(), s.len() + 2 + 3 * 3);
    assert!(q.starts_with('\'') && q.ends_with('\''));
    assert_eq!(grimmnetz::games::shell_single_quote(""), "''");
}

#[test]
fn tuple_bodies_split_back_into_their_pairs() {
    let ps = pairs(&[("Difficulty", "None"), ("ExpRate", "1.5"), ("Empty", "")]);
    let body = ps.iter().map(|(k, v)| format!("{k}={v}")).collect::<Vec<_>>().join(",");
    assert_eq!(grimmnetz::config::split_ini_tuple(&body), ps);
}

#[test]
fn units_hold_their_settings_as_lines() {
    let unit = grimmnetz::provisioning::render_systemd_unit("abc", "/w", "./run 'x'", 1000, 150);
    let lines: Vec<&str> = unit.lines().collect();
    assert!(lines.contains(&"ExecStart=/bin/bash -c './run '\\''x'\\'''"));
    assert!(lines.contains(&"StandardInput=fifo:/run/grimmnetz-abc.console"));
    assert!(lines.contains(&"MemoryMax=1000M"));
    assert!(lines.contains(&"MemoryHigh=900M"));
    assert!(lines.contains(&"CPUQuota=150%"));
}

#[test]
fn a_value_before_its_name_can_hide_the_saved_value() {
    let s = schema("xml-properties", vec![field("k", "d")]);
    let raw = "<p value=\"a\" name=\"k\"/>";
    let out = text_of(render_config(&s, raw, &pairs(&[("k", "xname=")])));
    assert_eq!(out, "<p value=\"xname=\" name=\"k\"/>");
    assert_ne!(parse_config(&s, &out), pairs(&[("k", "xname=")]));
    let shaped = "<p name=\"k\" value=\"a\"/>";
    let out2 = text_of(render_config(&s, shaped, &pairs(&[("k", "xname=")])));
    assert_eq!(parse_config(&s, &out2), pairs(&[("k", "xname=")]));
}
