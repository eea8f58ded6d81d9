use grimmnetz::discovery::{
    discovery_list_command, instance_from_guess, next_signature_probe, instance_from_manifest, manifest_read_command,
    parse_discovery_candidates, signature_check_command, signature_matched, signature_path_for_template,
};
use grimmnetz::games::{GameInstall, GameTemplate};
use grimmnetz::install::{
    active_install_scan_command, install_dir_check_command, install_dir_gone, install_plan,
    install_script_command, install_tail_command, installed_record, parse_account_id, parse_active_installs,
    start_install, steamcmd_progress_parts, InstallNotice, InstallTracker,
};
use grimmnetz::versions::{
    latest_from_output, minecraft_version_of, parse_paper_installed, parse_server_properties,
    parse_steam_build_id, update_step_commands, version_info, version_query, VersionQuery,
};

fn template(id: &str, start: &str, app_id: Option<u32>, steps: Vec<&str>) -> GameTemplate {
    GameTemplate {
        id: id.to_string(),
        name: format!("Game \"{id}\""),
        subtitle: String::new(),
        icon: String::new(),
        requires: vec![],
        install: GameInstall {
            install_type: "steamcmd".to_string(),
            app_id,
            steps: steps.into_iter().map(|s| s.to_string()).collect(),
        },
        start_command: start.to_string(),
        default_cpu_limit_percent: 150,
        default_ram_limit_mb: 4096,
        config: None,
        ports: vec![],
        tested_on: vec![],
        console_say_format: "say {message}".to_string(),
        rcon: None,
    }
}

#[test]
fn signature_paths() {
    assert_eq!(signature_path_for_template(&template("a", "./PalServer.sh -port=8211", None, vec![])), Some("PalServer.sh".to_string()));
    assert_eq!(
        signature_path_for_template(&template("b", "java -Xmx{ram_limit_mb}M -jar paper.jar --nogui", None, vec![])),
        Some("paper.jar".to_string())
    );
    assert_eq!(signature_path_for_template(&template("c", "bash start.sh", None, vec![])), None);
    assert_eq!(signature_path_for_template(&template("d", "./", None, vec![])), None);
}

#[test]
fn discovery_candidates_skip_known_and_helper_units() {
    assert_eq!(
        discovery_list_command(),
        "find /etc/systemd/system -maxdepth 1 -name 'grimmnetz-*.service' -printf '%f\\n' 2>/dev/null"
    );
    let listing = "grimmnetz-aaa.service\ngrimmnetz-restart-grimmnetz-aaa-1.service\ngrimmnetz-install-bbb.service\n  grimmnetz-ccc.service  \ngrimmnetz-.service\nother.service\ngrimmnetz-ddd.service.service\n";
    let known = vec!["ccc".to_string()];
    let got = parse_discovery_candidates(listing, &known);
    assert_eq!(
        got,
        vec![
            ("grimmnetz-aaa".to_string(), "aaa".to_string()),
            ("grimmnetz-ddd".to_string(), "ddd".to_string()),
        ]
    );
}

#[test]
fn manifest_records() {
    assert_eq!(manifest_read_command("x"), "sudo cat /home/gameserver/instances/x/.grimmnetz-instance.json 2>/dev/null");
    let r = instance_from_manifest(
        "srv",
        "grimmnetz-x",
        "x",
        "{\"game_id\":\"palworld\",\"display_name\":\"Pal\",\"cpu_limit_percent\":300,\"ram_limit_mb\":16384}",
    )
    .unwrap();
    assert_eq!(r.game_id, "palworld");
    assert_eq!(r.display_name, "Pal");
    assert_eq!(r.cpu_limit_percent, 300);
    assert_eq!(r.ram_limit_mb, 16384);
    assert_eq!(r.install_path, "/home/gameserver/instances/x");
    assert_eq!(r.systemd_unit, "grimmnetz-x");
    let d = instance_from_manifest("srv", "grimmnetz-x", "x", "[1, 2]").unwrap();
    assert_eq!((d.game_id.as_str(), d.display_name.as_str(), d.cpu_limit_percent, d.ram_limit_mb), ("unknown", "x", 100, 2048));
    assert!(instance_from_manifest("srv", "grimmnetz-x", "x", "").is_none());
    // A limit above u32 is cut to its low 32 bits, as the manifest numbers are read as u64.
    let big = instance_from_manifest("s", "u", "x", "{\"cpu_limit_percent\":4294967396}").unwrap();
    assert_eq!(big.cpu_limit_percent, 100);
}

#[test]
fn signature_guess() {
    assert_eq!(
        signature_check_command("x", "paper.jar"),
        "sudo test -f '/home/gameserver/instances/x'/'paper.jar' && echo yes"
    );
    assert!(signature_matched(" yes\n"));
    assert!(!signature_matched("no"));
    let t = template("mc", "java -jar paper.jar", None, vec![]);
    let r = instance_from_guess("srv", "grimmnetz-x", "x", &Some(t));
    assert_eq!((r.game_id.as_str(), r.cpu_limit_percent, r.ram_limit_mb), ("mc", 150, 4096));
    let u = instance_from_guess("srv", "grimmnetz-x", "x", &None);
    assert_eq!((u.game_id.as_str(), u.display_name.as_str(), u.cpu_limit_percent, u.ram_limit_mb), ("unknown", "x", 100, 2048));
}

#[test]
fn steam_build_ids() {
    let acf = "\"AppState\"\n{\n\t\"appid\"\t\t\"2394010\"\n\t\"buildid\"\t\t\"17011566\"\n\t\"buildid\"\t\t\"1\"\n}\n";
    assert_eq!(parse_steam_build_id(acf), Some("17011566".to_string()));
    assert_eq!(parse_steam_build_id("nothing"), None);
}

#[test]
fn paper_versions() {
    assert_eq!(minecraft_version_of("26.2-92-0a99345 (MC: 26.2)"), Some("26.2".to_string()));
    assert_eq!(minecraft_version_of("no version"), None);
    assert_eq!(minecraft_version_of("MC: 1.21"), None);
    assert_eq!(
        parse_paper_installed("{\"currentVersion\":\"1.21.4-100-abc (MC: 1.21.4)\"}"),
        Some("1.21.4".to_string())
    );
    assert_eq!(parse_paper_installed("{}"), None);
    assert_eq!(latest_from_output(Some(" 1.21.4\n".to_string())), Some("1.21.4".to_string()));
    assert_eq!(latest_from_output(Some("  ".to_string())), None);
    assert_eq!(latest_from_output(None), None);
    let v = version_info(Some("1.21".to_string()), Some("1.21".to_string()));
    assert!(v.up_to_date);
    assert!(!version_info(Some("1.20".to_string()), Some("1.21".to_string())).up_to_date);
    assert!(!version_info(None, Some("1.21".to_string())).up_to_date);
}

#[test]
fn version_queries() {
    let ts = || vec![template("palworld", "./x", Some(2394010), vec![]), template("nosteam", "./y", None, vec![])];
    match version_query(ts(), "minecraft-paper", "/i") {
        Ok(VersionQuery::Paper(a, b)) => {
            assert_eq!(a, "sudo cat '/i/.paper/version_history.json' 2>/dev/null");
            assert!(b.starts_with("curl -s https://fill.papermc.io/v3/projects/paper"));
        }
        _ => panic!("expected the Paper query"),
    }
    match version_query(ts(), "palworld", "/i") {
        Ok(VersionQuery::SteamManifest(c)) => assert_eq!(c, "sudo cat '/i/steamapps/appmanifest_2394010.acf' 2>/dev/null"),
        _ => panic!("expected the Steam query"),
    }
    assert!(matches!(version_query(ts(), "nosteam", "/i"), Err(m) if m == "Für dieses Spiel gibt es noch keine Versionsanzeige"));
    assert!(matches!(version_query(ts(), "zzz", "/i"), Err(m) if m == "Unbekanntes Spiel: zzz"));
}

#[test]
fn server_properties() {
    let raw = "#Minecraft server properties\nlevel-name = world_one\nserver-port=25570\nlevel-name=world_two\n";
    assert_eq!(parse_server_properties(raw), (Some("world_two".to_string()), 25570));
    assert_eq!(parse_server_properties("server-port=abc\n"), (None, 25565));
    assert_eq!(parse_server_properties(""), (None, 25565));
}

#[test]
fn update_steps() {
    let t = template("mc", "./x", None, vec!["cd /home/gameserver/instances/{instance_id} && ./update.sh", "echo {ram_limit_mb}"]);
    let cmds = update_step_commands(&t, "/home/gameserver/instances/abc", 4096);
    assert_eq!(
        cmds,
        vec![
            "sudo -u gameserver bash -c 'cd /home/gameserver/instances/abc && ./update.sh'".to_string(),
            "sudo -u gameserver bash -c 'echo 4096'".to_string(),
        ]
    );
}

#[test]
fn install_plan_commands() {
    let t = template("palworld", "./PalServer.sh", Some(2394010), vec![]);
    let p = install_plan("palworld", &t, "id-1");
    assert_eq!(p.install_path, "/home/gameserver/instances/id-1");
    assert_eq!(p.unit_name, "grimmnetz-id-1");
    assert_eq!(p.install_unit_name, "grimmnetz-install-id-1");
    assert_eq!(p.mkdir_command, "sudo mkdir -p /home/gameserver/instances/id-1");
    assert_eq!(p.game_id_command, "echo 'palworld' | sudo tee /home/gameserver/instances/id-1/.grimmnetz-game-id > /dev/null");
    assert_eq!(
        p.manifest,
        "{\"game_id\":\"palworld\",\"display_name\":\"Game palworld\",\"cpu_limit_percent\":150,\"ram_limit_mb\":4096}"
    );
    assert_eq!(
        p.install_unit_contents,
        "[Unit]\nDescription=GrimmNetz Install id-1\n\n[Service]\nType=oneshot\nRemainAfterExit=yes\nWorkingDirectory=/home/gameserver/instances/id-1\nExecStart=/bin/bash -c '/bin/bash /home/gameserver/instances/id-1/install.sh > /home/gameserver/instances/id-1/install.log 2>&1'\n\n[Install]\nWantedBy=multi-user.target\n"
    );
    assert_eq!(p.start_command, "sudo systemctl start --no-block grimmnetz-install-id-1");
}

#[test]
fn start_install_uses_fresh_uuid() {
    let ts = vec![template("palworld", "./x", None, vec![])];
    let p = start_install(ts, "palworld").unwrap();
    assert_eq!(p.instance_id.len(), 36);
    assert_eq!(p.instance_id.matches('-').count(), 4);
    assert_eq!(p.install_path, format!("/home/gameserver/instances/{}", p.instance_id));
    let q = start_install(vec![], "palworld");
    assert!(matches!(q, Err(m) if m == "Unbekanntes Spiel: palworld"));
}

#[test]
fn install_script_and_ids() {
    assert_eq!(
        install_script_command("/p", "echo 'hi'"),
        "echo 'echo '\\''hi'\\''' | sudo tee /p/install.sh > /dev/null && sudo chmod 700 /p/install.sh"
    );
    assert_eq!(parse_account_id(" 1001\n", "e"), Ok(1001));
    assert_eq!(parse_account_id("id: no such user", "Konnte gameserver-UID nicht ermitteln"), Err("Konnte gameserver-UID nicht ermitteln".to_string()));
}

#[test]
fn active_installs() {
    assert!(active_install_scan_command().starts_with("sudo bash -c 'for d in /home/gameserver/instances/*/; do"));
    let got = parse_active_installs(" a1|palworld \nknown|x\n|nogame\nbroken\nb2|\n", &vec!["known".to_string()]);
    let got: Vec<(String, String, bool)> = got.into_iter().map(|a| (a.instance_id, a.game_id, a.running)).collect();
    assert_eq!(
        got,
        vec![("a1".to_string(), "palworld".to_string(), true), ("b2".to_string(), String::new(), true)]
    );
}

#[test]
fn install_log_commands() {
    assert_eq!(
        install_tail_command("i"),
        "sudo tail -f --retry -n +1 /home/gameserver/instances/i/install.log 2>/dev/null | awk '{ print; fflush(); if ($0 ~ /^GRIMMNETZ_DONE/ || $0 ~ /^GRIMMNETZ_FAILED/) exit }'"
    );
    assert_eq!(install_dir_check_command("i"), "test -d /home/gameserver/instances/i || echo GRIMMNETZ_DIR_GONE");
    assert!(install_dir_gone(Some("GRIMMNETZ_DIR_GONE\n".to_string())));
    assert!(!install_dir_gone(Some(String::new())));
    assert!(!install_dir_gone(None));
}

#[test]
fn steamcmd_progress() {
    assert_eq!(
        steamcmd_progress_parts("Update state (0x61) downloading, progress: 42.30 (123456789 / 291234567)"),
        Some(("42.30".to_string(), "Download".to_string()))
    );
    assert_eq!(
        steamcmd_progress_parts("Update state (0x81) verifying update, progress: 7.5% (1 / 2)"),
        Some(("7.5".to_string(), "Überprüfung".to_string()))
    );
    assert_eq!(steamcmd_progress_parts("progress:"), Some((String::new(), "Installation".to_string())));
    assert_eq!(steamcmd_progress_parts("Success! App '2394010' fully installed."), None);
}

#[test]
fn install_log_tracking() {
    let mut t = InstallTracker::new(3);
    match t.observe("GRIMMNETZ_STEP 1/5") {
        Some(InstallNotice::Step(l)) => assert_eq!(l, "Schritt 1/5"),
        _ => panic!("expected a step"),
    }
    assert_eq!(t.total_steps, 5);
    match t.observe("GRIMMNETZ_STEP unit") {
        Some(InstallNotice::Step(l)) => assert_eq!(l, "Dienst wird eingerichtet"),
        _ => panic!("expected a step"),
    }
    match t.observe("GRIMMNETZ_STEP 2/x") {
        Some(InstallNotice::Step(l)) => assert_eq!(l, "Schritt 2/x"),
        _ => panic!("expected a step"),
    }
    assert_eq!(t.total_steps, 5);
    assert!(t.observe("GRIMMNETZ_STEP garbage").is_none());
    match t.observe(" Update state (0x61) downloading, progress: 10.00 (1 / 10)") {
        Some(InstallNotice::Progress(p, ph)) => assert_eq!((p.as_str(), ph.as_str()), ("10.00", "Download")),
        _ => panic!("expected progress"),
    }
    assert!(t.observe("plain output").is_none());
    assert_eq!(t.outcome(false), Err("Verbindung zum Install-Log verloren, bevor die Installation abgeschlossen war - erneut versuchen.".to_string()));
    assert_eq!(t.outcome(true), Err("Installation fehlgeschlagen (Fehlermeldung nicht mehr verfügbar, Instanzordner wurde bereits aufgeräumt).".to_string()));
    assert!(t.observe("GRIMMNETZ_DONE").is_none());
    assert_eq!(t.outcome(false), Ok(()));
    assert!(t.observe("GRIMMNETZ_FAILED:disk full").is_none());
    assert_eq!(t.outcome(false), Err("disk full".to_string()));
}

#[test]
fn installed_records() {
    let t = template("palworld", "./x", None, vec![]);
    let r = installed_record("i", "srv", "palworld", "My Pal", &t);
    assert_eq!(r.install_path, "/home/gameserver/instances/i");
    assert_eq!(r.systemd_unit, "grimmnetz-i");
    assert_eq!((r.cpu_limit_percent, r.ram_limit_mb), (150, 4096));
}

#[test]
fn signature_probes_skip_templates_without_a_start_file() {
    let ts = vec![
        template("a", "bash start.sh", None, vec![]),
        template("b", "./PalServer.sh -port=8211", None, vec![]),
        template("c", "java -jar paper.jar", None, vec![]),
    ];
    let (j, c) = next_signature_probe(&ts, 0, "x").unwrap();
    assert_eq!(j, 1);
    assert_eq!(c, "sudo test -f '/home/gameserver/instances/x'/'PalServer.sh' && echo yes");
    let (j2, c2) = next_signature_probe(&ts, 2, "x").unwrap();
    assert_eq!(j2, 2);
    assert_eq!(c2, "sudo test -f '/home/gameserver/instances/x'/'paper.jar' && echo yes");
    assert!(next_signature_probe(&ts, 3, "x").is_none());
    assert!(next_signature_probe(&vec![template("a", "bash start.sh", None, vec![])], 0, "x").is_none());
}
