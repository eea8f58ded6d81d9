use grimmnetz::countdown::{
    build_broadcast_command, build_countdown_script, build_save_command, console_say_command,
    countdown_marks, format_duration, rcon_command, shift_time,
};
use grimmnetz::games::{GameInstall, GameTemplate, RconSpec};
use grimmnetz::records::InstanceRecord;
use grimmnetz::restarts::{
    add_scheduled_restart, announced_action_script, list_restarts_command, parse_clock_time,
    parse_scheduled_restarts, remove_scheduled_restart, scheduled_restart_files,
};

fn rcon_template() -> GameTemplate {
    GameTemplate {
        id: "factorio".to_string(),
        name: "Factorio".to_string(),
        subtitle: String::new(),
        icon: String::new(),
        requires: vec![],
        install: GameInstall { install_type: "steamcmd".to_string(), app_id: None, steps: vec![] },
        start_command: "./bin/x64/factorio --start-server".to_string(),
        default_cpu_limit_percent: 100,
        default_ram_limit_mb: 2048,
        config: None,
        ports: vec![],
        tested_on: vec![],
        console_say_format: "{message}".to_string(),
        rcon: Some(RconSpec {
            port: 27015,
            password_file: "rcon.pw".to_string(),
            broadcast_command: "/say {message}".to_string(),
            save_command: Some("/save".to_string()),
        }),
    }
}

fn instance() -> InstanceRecord {
    InstanceRecord {
        id: "abc".to_string(),
        server_id: "srv".to_string(),
        game_id: "factorio".to_string(),
        display_name: "Factorio".to_string(),
        install_path: "/home/gameserver/instances/abc".to_string(),
        systemd_unit: "grimmnetz-abc".to_string(),
        cpu_limit_percent: 100,
        ram_limit_mb: 2048,
    }
}

fn parts(script: &str) -> Vec<String> {
    script.split(" ; ").map(|s| s.to_string()).collect()
}

fn sleep_total(ps: &[String]) -> u32 {
    ps.iter().filter_map(|p| p.strip_prefix("sleep ")).map(|n| n.parse::<u32>().unwrap()).sum()
}

#[test]
fn shift_time_wraps_around_midnight() {
    assert_eq!(shift_time("23", "50", 15), ("00".to_string(), "05".to_string()));
    assert_eq!(shift_time("00", "05", -15), ("23".to_string(), "50".to_string()));
    assert_eq!(shift_time("25", "00", -15), ("00".to_string(), "45".to_string()));
}

#[test]
fn shift_time_unparsable_parts_count_as_zero() {
    assert_eq!(shift_time("ab", "7", 0), ("00".to_string(), "07".to_string()));
}

#[test]
fn durations() {
    assert_eq!(format_duration(0), "0 Sek");
    assert_eq!(format_duration(59), "59 Sek");
    assert_eq!(format_duration(60), "1 Min");
    assert_eq!(format_duration(61), "1 Min 1 Sek");
    assert_eq!(format_duration(900), "15 Min");
    assert_eq!(format_duration(10800), "180 Min");
}

#[test]
fn marks_schedule() {
    let m = countdown_marks();
    assert_eq!(m.len(), 18);
    assert_eq!(m[0], (900, "15 Min".to_string()));
    assert_eq!(m[7], (30, "30 Sek".to_string()));
    assert_eq!(m[8], (10, "10 Sek".to_string()));
    assert_eq!(m[17], (1, "1 Sek".to_string()));
    for w in m.windows(2) {
        assert!(w[0].0 > w[1].0);
    }
}

#[test]
fn say_command_through_fifo() {
    assert_eq!(
        console_say_command("/run/grimmnetz-x.console", "say {message}", "Hi"),
        "timeout 2 sudo -u gameserver bash -c 'echo '\\''say Hi'\\'' > /run/grimmnetz-x.console' 2>/dev/null"
    );
}

#[test]
fn rcon_command_shape() {
    let c = rcon_command(27015, "/p/rcon.pw", "/save");
    assert!(c.starts_with("timeout 5 sudo -u gameserver bash -c 'python3 -c "));
    assert!(c.ends_with(" 2>/dev/null"));
    assert!(c.contains(" 27015 "));
    assert!(c.contains("rcon.pw"));
}

#[test]
fn broadcast_uses_rcon_when_declared() {
    let c = build_broadcast_command(&Some(instance()), &Some(rcon_template()), "grimmnetz-abc", "Hallo");
    assert_eq!(c, rcon_command(27015, "/home/gameserver/instances/abc/rcon.pw", "/say Hallo"));
}

#[test]
fn broadcast_falls_back_to_fifo() {
    let c = build_broadcast_command(&None, &None, "grimmnetz-abc", "Hallo");
    assert_eq!(c, console_say_command("/run/grimmnetz-abc.console", "say {message}", "Hallo"));
    let d = build_broadcast_command(&None, &None, "other", "Hallo");
    assert_eq!(d, console_say_command("", "say {message}", "Hallo"));
}

#[test]
fn save_command_only_with_rcon_save() {
    assert_eq!(
        build_save_command(&Some(instance()), &Some(rcon_template())),
        Some(rcon_command(27015, "/home/gameserver/instances/abc/rcon.pw", "/save"))
    );
    assert_eq!(build_save_command(&None, &Some(rcon_template())), None);
}

#[test]
fn countdown_sleeps_add_up_and_announce_time_left() {
    let script = build_countdown_script(&None, &None, "grimmnetz-x", "restart", None, 65);
    let ps = parts(&script);
    assert_eq!(sleep_total(&ps), 65);
    assert_eq!(ps.last().unwrap(), "sudo systemctl restart grimmnetz-x");
    assert_eq!(ps[0], "sleep 5");
    assert_eq!(
        ps[1],
        build_broadcast_command(&None, &None, "grimmnetz-x", "Server Neustart in 1 Min")
    );
    // After each announcement, the sleeps until the action equal the time it names.
    let say = |m: &str| build_broadcast_command(&None, &None, "grimmnetz-x", m);
    let idx = ps.iter().position(|p| *p == say("Server Neustart in 30 Sek")).unwrap();
    assert_eq!(sleep_total(&ps[idx + 1..]), 30);
    let announcements = ps.iter().filter(|p| p.starts_with("timeout 2")).count();
    assert_eq!(announcements, 12);
}

#[test]
fn countdown_with_custom_message_and_save() {
    let script = build_countdown_script(&Some(instance()), &Some(rcon_template()), "grimmnetz-abc", "stop", Some("Wartung"), 300);
    let ps = parts(&script);
    let say = |m: &str| build_broadcast_command(&Some(instance()), &Some(rcon_template()), "grimmnetz-abc", m);
    assert_eq!(ps[0], say("Wartung"));
    assert_eq!(ps[1], say("Server Stop in 5 Min"));
    assert_eq!(ps[2], "sleep 60");
    assert_eq!(ps[3], say("Server Stop in 4 Min"));
    let n = ps.len();
    assert_eq!(ps[n - 1], "sudo systemctl stop grimmnetz-abc");
    assert_eq!(ps[n - 2], "sleep 2");
    assert_eq!(ps[n - 3], build_save_command(&Some(instance()), &Some(rcon_template())).unwrap());
    assert_eq!(sleep_total(&ps[..n - 3]), 300);
}

#[test]
fn countdown_of_zero_seconds() {
    let script = build_countdown_script(&None, &None, "u", "restart", None, 0);
    assert_eq!(script, "sudo systemctl restart u");
}

#[test]
fn clock_times() {
    assert_eq!(parse_clock_time("07:30"), Ok(("07".to_string(), "30".to_string())));
    assert_eq!(parse_clock_time("7:30"), Err("Ungültige Uhrzeit".to_string()));
    assert_eq!(parse_clock_time("07-30"), Err("Ungültige Uhrzeit".to_string()));
    assert_eq!(parse_clock_time("0a:30"), Err("Ungültige Uhrzeit".to_string()));
}

#[test]
fn restart_files_fire_fifteen_minutes_early() {
    let f = scheduled_restart_files(&None, &None, "grimmnetz-x", "07:30", "deadbeef").unwrap();
    assert_eq!(f.unit_name, "grimmnetz-restart-grimmnetz-x-deadbeef");
    assert_eq!(
        f.timer_contents,
        "[Unit]\nDescription=Timer fuer geplanten Neustart von grimmnetz-x\n\n[Timer]\nOnCalendar=*-*-* 07:15:00\nPersistent=false\n\n[Install]\nWantedBy=timers.target\n"
    );
    assert!(f.service_contents.starts_with(
        "[Unit]\nDescription=Geplanter Neustart fuer grimmnetz-x\n\n[Service]\nType=oneshot\nExecStart=/bin/bash -c '"
    ));
    assert!(f.service_contents.ends_with("sudo systemctl restart grimmnetz-x'\n"));
    let g = scheduled_restart_files(&None, &None, "grimmnetz-x", "00:05", "deadbeef").unwrap();
    assert!(g.timer_contents.contains("OnCalendar=*-*-* 23:50:00\n"));
}

#[test]
fn restart_files_errors() {
    assert_eq!(
        scheduled_restart_files(&None, &None, "grimmnetz-x", "7:30", "id").err(),
        Some("Ungültige Uhrzeit".to_string())
    );
    assert_eq!(
        scheduled_restart_files(&None, &None, "bad unit", "07:30", "id").err(),
        Some("Ungültiger Bezeichner".to_string())
    );
}

#[test]
fn listing_reads_back_added_time() {
    let out = "grimmnetz-restart-grimmnetz-x-deadbeef|07:15:00\nunrelated|x\ngrimmnetz-restart-grimmnetz-x-cafe|23:50:00\ngrimmnetz-restart-other-1|07:15:00\n";
    let got = parse_scheduled_restarts("grimmnetz-x", out);
    let got: Vec<(String, String)> = got.into_iter().map(|r| (r.id, r.time)).collect();
    assert_eq!(
        got,
        vec![("deadbeef".to_string(), "07:30".to_string()), ("cafe".to_string(), "00:05".to_string())]
    );
}

#[test]
fn listing_skips_lines_without_time() {
    let got = parse_scheduled_restarts("u", "grimmnetz-restart-u-a|7\n");
    assert!(got.is_empty());
}

#[test]
fn added_restart_gets_hex_id() {
    let f = add_scheduled_restart(&None, &None, "grimmnetz-x", "12:00").unwrap();
    let id = f.unit_name.strip_prefix("grimmnetz-restart-grimmnetz-x-").unwrap();
    assert_eq!(id.len(), 8);
    assert!(id.chars().all(|c| c.is_ascii_digit() || ('a'..='f').contains(&c)));
    assert_eq!(add_scheduled_restart(&None, &None, "grimmnetz-x", "12.00").err(), Some("Ungültige Uhrzeit".to_string()));
    assert_eq!(add_scheduled_restart(&None, &None, "x y", "12:00").err(), Some("Ungültiger Bezeichner".to_string()));
}

#[test]
fn list_and_remove_commands() {
    assert_eq!(
        list_restarts_command("grimmnetz-x"),
        Ok("for f in /etc/systemd/system/grimmnetz-restart-grimmnetz-x-*.timer; do [ -e \"$f\" ] || continue; NAME=$(basename \"$f\" .timer); CAL=$(grep -oP 'OnCalendar=\\*-\\*-\\* \\K[0-9:]+' \"$f\"); echo \"$NAME|$CAL\"; done".to_string())
    );
    assert_eq!(list_restarts_command("a;b"), Err("Ungültiger Bezeichner".to_string()));
    assert_eq!(
        remove_scheduled_restart("u", "i"),
        Ok("sudo systemctl disable --now grimmnetz-restart-u-i.timer 2>/dev/null; sudo rm -f /etc/systemd/system/grimmnetz-restart-u-i.timer /etc/systemd/system/grimmnetz-restart-u-i.service; sudo systemctl daemon-reload".to_string())
    );
    assert_eq!(remove_scheduled_restart("u", "i j"), Err("Ungültiger Bezeichner".to_string()));
}

#[test]
fn announced_action() {
    assert_eq!(announced_action_script(&None, &None, "u", "m", 5, "reboot"), Err("Ungültige Aktion".to_string()));
    let s = announced_action_script(&None, &None, "u", "m", 500, "stop").unwrap();
    assert_eq!(s, build_countdown_script(&None, &None, "u", "stop", Some("m"), 10800));
    let ps = parts(&s);
    assert_eq!(ps[1], build_broadcast_command(&None, &None, "u", "Server Stop in 180 Min"));
}

fn sleeps(script: &str) -> u32 {
    script.split(" ; ").filter_map(|p| p.strip_prefix("sleep ")).map(|n| n.parse::<u32>().unwrap()).sum()
}

#[test]
fn countdown_sleeps_add_up_and_the_action_comes_last() {
    let plain = build_countdown_script(&None, &None, "grimmnetz-x", "restart", None, 65);
    assert_eq!(sleeps(&plain), 65);
    assert_eq!(plain.split(" ; ").last(), Some("sudo systemctl restart grimmnetz-x"));
    let saved = build_countdown_script(&Some(instance()), &Some(rcon_template()), "grimmnetz-abc", "stop", None, 300);
    assert_eq!(sleeps(&saved), 302);
    let parts: Vec<&str> = saved.split(" ; ").collect();
    assert_eq!(parts[parts.len() - 2], "sleep 2");
    assert_eq!(parts[parts.len() - 1], "sudo systemctl stop grimmnetz-abc");
}

#[test]
fn countdown_announcements_come_longest_first() {
    let script = build_countdown_script(&None, &None, "grimmnetz-x", "restart", Some("Update"), 60);
    let parts: Vec<&str> = script.split(" ; ").collect();
    let said: Vec<&str> = parts[..parts.len() - 1].iter().copied().filter(|p| !p.starts_with("sleep ")).collect();
    let expected = ["Update", "Server Neustart in 1 Min", "Server Neustart in 30 Sek"];
    for (i, m) in expected.iter().enumerate() {
        assert!(said[i].contains(m), "{} should announce {}", said[i], m);
    }
    assert_eq!(said.len(), 2 + 1 + 10);
    assert!(said[3].contains("Server Neustart in 10 Sek"));
    assert!(said[12].contains("Server Neustart in 1 Sek"));
    assert!(!parts.contains(&"sleep 0"));
}

#[test]
fn restart_timer_file_holds_one_calendar_line() {
    let f = add_scheduled_restart(&None, &None, "grimmnetz-x", "00:05").unwrap();
    assert!(f.unit_name.starts_with("grimmnetz-restart-grimmnetz-x-"));
    assert_eq!(f.timer_contents.matches("OnCalendar=*-*-* ").count(), 1);
    let after = f.timer_contents.split("OnCalendar=*-*-* ").nth(1).unwrap();
    assert!(after.starts_with("23:50:00\n"));
}
