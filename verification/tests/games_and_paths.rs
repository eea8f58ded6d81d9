use grimmnetz::config::split_ini_tuple;
use grimmnetz::games::{
    default_console_say_format, find_template, render_step, shell_single_quote, GameInstall, GameTemplate,
};
use grimmnetz::paths::{
    console_fifo_path, resolve_browsable_path, ssh_key_keyring_name, timer_name, validate_backup_filename,
    validate_instance_path, validate_sftp_path,
};

fn template(id: &str, name: &str, start: &str) -> GameTemplate {
    GameTemplate {
        id: id.to_string(),
        name: name.to_string(),
        subtitle: String::new(),
        icon: String::new(),
        requires: vec![],
        install: GameInstall { install_type: "steamcmd".to_string(), app_id: Some(2394010), steps: vec![] },
        start_command: start.to_string(),
        default_cpu_limit_percent: 200,
        default_ram_limit_mb: 8192,
        config: None,
        ports: vec![],
        tested_on: vec![],
        console_say_format: "say {message}".to_string(),
        rcon: None,
    }
}

#[test]
fn single_quote_plain_text() {
    assert_eq!(shell_single_quote("hello world"), "'hello world'");
}

#[test]
fn single_quote_escapes_embedded_quotes() {
    assert_eq!(shell_single_quote("it's"), "'it'\\''s'");
    assert_eq!(shell_single_quote("''"), "''\\'''\\'''");
}

#[test]
fn single_quote_empty() {
    assert_eq!(shell_single_quote(""), "''");
}

#[test]
fn render_step_substitutes_all_placeholders() {
    let out = render_step("java -Xms{xms_mb}M -Xmx{ram_limit_mb}M -jar {instance_id}.jar", "abc", 8192);
    assert_eq!(out, "java -Xms4096M -Xmx8192M -jar abc.jar");
}

#[test]
fn render_step_xms_floor_and_cap() {
    // Half of 3000 is below the 2048 floor; the floor applies.
    assert_eq!(render_step("{xms_mb}", "x", 3000), "2048");
    // The floor never exceeds the limit itself.
    assert_eq!(render_step("{xms_mb}", "x", 1024), "1024");
    assert_eq!(render_step("{xms_mb}", "x", 10000), "5000");
}

#[test]
fn render_step_repeated_placeholders() {
    assert_eq!(render_step("{instance_id}/{instance_id}", "i1", 10), "i1/i1");
}

#[test]
fn find_template_picks_first_with_id() {
    let ts = vec![template("a", "First A", "./a"), template("b", "B", "./b"), template("a", "Second A", "./a")];
    let t = find_template(ts, "a").expect("present");
    assert_eq!(t.name, "First A");
}

#[test]
fn find_template_unknown_is_none() {
    let ts = vec![template("a", "A", "./a")];
    assert!(find_template(ts, "zzz").is_none());
}

#[test]
fn default_say_format() {
    assert_eq!(default_console_say_format(), "say {message}");
}

#[test]
fn ini_tuple_respects_quotes() {
    let pairs = split_ini_tuple("Difficulty=None,ServerName=\"My, Server\",  ExpRate = 1.5 ,NoEquals");
    assert_eq!(
        pairs,
        vec![
            ("Difficulty".to_string(), "None".to_string()),
            ("ServerName".to_string(), "\"My, Server\"".to_string()),
            ("ExpRate".to_string(), "1.5".to_string()),
        ]
    );
}

#[test]
fn ini_tuple_empty_body() {
    assert!(split_ini_tuple("").is_empty());
}

#[test]
fn instance_path_accepted_only_exactly() {
    assert!(validate_instance_path("/home/gameserver/instances/abc", "abc").is_ok());
    assert_eq!(
        validate_instance_path("/home/gameserver/instances", "abc"),
        Err("Install-Pfad passt nicht zur Instanz-ID, breche Löschung ab (erwartet \"/home/gameserver/instances/abc\", erhalten \"/home/gameserver/instances\")".to_string())
    );
}

#[test]
fn instance_path_bad_ids() {
    assert_eq!(validate_instance_path("/x", ""), Err("Ungültige instance_id: \"\"".to_string()));
    assert_eq!(validate_instance_path("/x", "a/b"), Err("Ungültige instance_id: \"a/b\"".to_string()));
    assert_eq!(validate_instance_path("/x", ".."), Err("Ungültige instance_id: \"..\"".to_string()));
}

#[test]
fn browsable_paths() {
    assert_eq!(resolve_browsable_path("abc", "install"), Ok("/home/gameserver/instances/abc".to_string()));
    assert_eq!(resolve_browsable_path("abc", "backups"), Ok("/home/gameserver/backups/abc".to_string()));
    assert_eq!(resolve_browsable_path("abc", "etc"), Err("Unbekanntes Verzeichnis: \"etc\"".to_string()));
    assert_eq!(resolve_browsable_path("../x", "install"), Err("Ungültige instance_id: \"../x\"".to_string()));
}

#[test]
fn backup_names() {
    assert!(validate_backup_filename("backup-20250101-120000.tar.gz").is_ok());
    assert_eq!(
        validate_backup_filename("x.zip"),
        Err("Ungültiger Backup-Dateiname: \"x.zip\"".to_string())
    );
    assert!(validate_backup_filename("../a.tar.gz").is_err());
    assert!(validate_backup_filename("a/b.tar.gz").is_err());
    assert!(validate_backup_filename("").is_err());
}

#[test]
fn sftp_paths() {
    assert!(validate_sftp_path("/home/gameserver").is_ok());
    assert!(validate_sftp_path("/home/gameserver/instances/x").is_ok());
    assert_eq!(validate_sftp_path("/home/gameserverx"), Err("Pfad außerhalb des zulässigen Bereichs".to_string()));
    assert_eq!(validate_sftp_path("/etc"), Err("Pfad außerhalb des zulässigen Bereichs".to_string()));
    assert_eq!(validate_sftp_path("/home/gameserver/../root"), Err("Ungültiger Pfad".to_string()));
}

#[test]
fn keyring_name_for_key() {
    assert_eq!(ssh_key_keyring_name("srv-1"), "srv-1::ssh_key");
}

#[test]
fn fifo_path_of_unit() {
    assert_eq!(console_fifo_path("grimmnetz-abc"), Some("/run/grimmnetz-abc.console".to_string()));
    assert_eq!(console_fifo_path("other"), None);
}

#[test]
fn timer_names() {
    assert_eq!(timer_name("grimmnetz-abc", "1f2e3d4c"), Ok("restart-grimmnetz-abc-1f2e3d4c".to_string()));
    assert_eq!(timer_name("bad unit", "x"), Err("Ungültiger Bezeichner".to_string()));
    assert_eq!(timer_name("u", ""), Err("Ungültiger Bezeichner".to_string()));
}
