use grimmnetz::bootstrap::{Bootstrap, SudoSetup};
use grimmnetz::provisioning::{
    cancel_firewall_rollback, control_instance, distro_family_from_os_release, firewall_status_command,
    install_systemd_unit, is_firewall_active, open_port, os_release_command, parse_at_job_id,
    render_systemd_unit, Action, DistroFamily, ExecOutcome, FirewallEnable,
};

fn out(s: &str) -> ExecOutcome {
    ExecOutcome::Output(s.to_string())
}

fn fail(s: &str) -> ExecOutcome {
    ExecOutcome::Failed(s.to_string())
}

fn run(a: Action) -> String {
    match a {
        Action::Run(c) => c,
        Action::RunWithStdin(c, _) => panic!("unexpected stdin run {c}"),
        Action::Finish(r) => panic!("unexpected finish {r:?}"),
    }
}

fn finish(a: Action) -> Result<String, String> {
    match a {
        Action::Finish(r) => r,
        Action::Run(c) => panic!("unexpected run {c}"),
        Action::RunWithStdin(c, _) => panic!("unexpected stdin run {c}"),
    }
}

#[test]
fn systemd_unit_text() {
    let u = render_systemd_unit("abc", "/home/gameserver/instances/abc", "./start.sh 'x'", 4096, 200);
    assert_eq!(
        u,
        "[Unit]\nDescription=GrimmNetz Gameserver Instance abc\nAfter=network.target\n\n[Service]\nType=simple\nUser=gameserver\nWorkingDirectory=/home/gameserver/instances/abc\nExecStart=/bin/bash -c './start.sh '\\''x'\\'''\nStandardInput=fifo:/run/grimmnetz-abc.console\nMemoryMax=4096M\nMemoryHigh=3686M\nCPUQuota=200%\nRestart=on-failure\nRestartSec=5\nKillSignal=SIGTERM\nTimeoutStopSec=60\nSuccessExitStatus=143\n\n[Install]\nWantedBy=multi-user.target\n"
    );
}

#[test]
fn memory_high_is_ninety_percent_rounded_down() {
    let u = render_systemd_unit("a", "/w", "./s", 1000, 100);
    assert!(u.contains("MemoryHigh=900M\n"));
    let v = render_systemd_unit("a", "/w", "./s", 2049, 100);
    assert!(v.contains("MemoryHigh=1844M\n"));
}

#[test]
fn distro_detection() {
    assert_eq!(os_release_command(), "grep -E '^(ID|ID_LIKE)=' /etc/os-release");
    assert_eq!(distro_family_from_os_release("ID=ubuntu\nID_LIKE=debian\n"), Ok(DistroFamily::Debian));
    assert_eq!(distro_family_from_os_release("ID=UBUNTU"), Ok(DistroFamily::Debian));
    assert_eq!(distro_family_from_os_release("ID=\"rocky\"\nID_LIKE=\"rhel centos fedora\""), Ok(DistroFamily::Fedora));
    assert_eq!(
        distro_family_from_os_release("ID=Arch\n"),
        Err("Diese Linux-Distribution wird noch nicht unterstützt (erkannt: id=arch). Aktuell unterstützt: Ubuntu/Debian und Fedora/RHEL/CentOS/Rocky/AlmaLinux.".to_string())
    );
}

#[test]
fn firewall_status_and_ports() {
    assert_eq!(firewall_status_command(DistroFamily::Debian), "sudo ufw status 2>/dev/null");
    assert!(is_firewall_active(DistroFamily::Debian, "Status: active\n"));
    assert!(!is_firewall_active(DistroFamily::Debian, "Status: inactive\n"));
    assert!(is_firewall_active(DistroFamily::Fedora, "active\n"));
    assert!(!is_firewall_active(DistroFamily::Fedora, "inactive\n"));
    assert_eq!(open_port(DistroFamily::Debian, "Status: active", 25565, "tcp"), Some("sudo ufw allow 25565/tcp".to_string()));
    assert_eq!(open_port(DistroFamily::Debian, "Status: inactive", 25565, "tcp"), None);
    assert_eq!(
        open_port(DistroFamily::Fedora, "active", 8211, "udp"),
        Some("sudo firewall-cmd --permanent --add-port=8211/udp && sudo firewall-cmd --reload".to_string())
    );
}

#[test]
fn small_commands() {
    assert_eq!(control_instance("u", "start"), "sudo systemctl start u");
    assert_eq!(cancel_firewall_rollback("7"), "sudo atrm 7 2>/dev/null");
    assert_eq!(
        install_systemd_unit("u", "a'b"),
        vec![
            "echo 'a'\\''b' | sudo tee /etc/systemd/system/u.service > /dev/null".to_string(),
            "sudo systemctl daemon-reload".to_string(),
            "sudo systemctl enable u".to_string(),
        ]
    );
}

#[test]
fn at_job_ids() {
    assert_eq!(
        parse_at_job_id("warning: commands will be executed using /bin/sh\njob 7 at Thu Jan  1 00:02:00 2025\n"),
        Some("7".to_string())
    );
    assert_eq!(parse_at_job_id("nothing here"), None);
    assert_eq!(parse_at_job_id("job"), None);
}

#[test]
fn firewall_enable_debian_success() {
    let mut m = FirewallEnable::new(DistroFamily::Debian, 22);
    assert_eq!(run(m.next(out(""))), "command -v ufw &>/dev/null || sudo apt-get install -y ufw");
    assert_eq!(run(m.next(out(""))), "command -v at &>/dev/null || (sudo apt-get install -y at || sudo dnf install -y at)");
    assert_eq!(run(m.next(out(""))), "sudo systemctl enable --now atd");
    assert_eq!(run(m.next(out(""))), "echo 'sudo ufw --force disable' | sudo at now + 2 minutes 2>&1");
    assert_eq!(run(m.next(out("job 12 at Mon"))), "sudo ufw allow 22/tcp");
    assert_eq!(run(m.next(out("Rule added"))), "sudo ufw show added 2>/dev/null");
    assert_eq!(run(m.next(out("Added user rules (see 'ufw status' for running firewall):\nufw allow 22/tcp\n"))), "sudo ufw --force enable");
    assert_eq!(finish(m.next(out("Firewall is active"))), Ok("12".to_string()));
}

#[test]
fn firewall_enable_fedora_reloads() {
    let mut m = FirewallEnable::new(DistroFamily::Fedora, 2222);
    assert_eq!(run(m.next(out(""))), "command -v at &>/dev/null || (sudo apt-get install -y at || sudo dnf install -y at)");
    run(m.next(out("")));
    assert_eq!(run(m.next(out(""))), "echo 'sudo systemctl stop firewalld' | sudo at now + 2 minutes 2>&1");
    assert_eq!(run(m.next(out("job 3 at x"))), "sudo firewall-cmd --permanent --add-port=2222/tcp");
    assert_eq!(run(m.next(out("success"))), "sudo firewall-cmd --permanent --list-ports 2>/dev/null");
    assert_eq!(run(m.next(out("2222/tcp 80/tcp"))), "sudo systemctl enable --now firewalld");
    assert_eq!(run(m.next(out(""))), "sudo firewall-cmd --reload");
    assert_eq!(finish(m.next(out("success"))), Ok("3".to_string()));
}

#[test]
fn firewall_enable_refuses_without_ssh_rule() {
    let mut m = FirewallEnable::new(DistroFamily::Debian, 22);
    for _ in 0..4 {
        run(m.next(out("")));
    }
    run(m.next(out("job 5 at x")));
    run(m.next(out("")));
    assert_eq!(run(m.next(out("ufw allow 2222/tcp\n"))), "sudo atrm 5 2>/dev/null");
    assert_eq!(
        finish(m.next(out(""))),
        Err("SSH-Port 22/tcp wurde nicht in den ufw-Regeln gefunden - Firewall wurde zur Sicherheit NICHT aktiviert.".to_string())
    );
}

#[test]
fn firewall_enable_failures() {
    let mut m = FirewallEnable::new(DistroFamily::Debian, 22);
    run(m.next(out("")));
    assert_eq!(finish(m.next(fail("apt broke"))), Err("apt broke".to_string()));
    let mut n = FirewallEnable::new(DistroFamily::Fedora, 22);
    for _ in 0..3 {
        run(n.next(out("")));
    }
    assert_eq!(finish(n.next(out("garbage"))), Err("Konnte geplanten Rollback-Job nicht auslesen: garbage".to_string()));
}

#[test]
fn sudo_setup_already_configured() {
    let mut s = SudoSetup::new("alice", "pw");
    assert_eq!(run(s.next(out(""))), "sudo -n true 2>&1; echo EXIT:$?");
    assert_eq!(finish(s.next(out("EXIT:0\n"))), Ok(String::new()));
}

#[test]
fn sudo_setup_configures_with_password_on_stdin() {
    let mut s = SudoSetup::new("alice", "pw");
    run(s.next(out("")));
    match s.next(out("sudo: a password is required\nEXIT:1\n")) {
        Action::RunWithStdin(c, input) => {
            assert_eq!(c, "sudo -S -p '' bash -c \"echo 'alice ALL=(ALL) NOPASSWD:ALL' > /etc/sudoers.d/grimmnetz && chmod 440 /etc/sudoers.d/grimmnetz\"");
            assert_eq!(input, "pw\n");
        }
        _ => panic!("expected the sudoers script"),
    }
    assert_eq!(run(s.next(out("ok"))), "sudo -n true 2>&1; echo EXIT:$?");
    assert_eq!(finish(s.next(out("EXIT:0"))), Ok(String::new()));
}

#[test]
fn sudo_setup_reports_failure_with_script_output() {
    let mut s = SudoSetup::new("bob", "wrong");
    run(s.next(out("")));
    let _ = s.next(out("EXIT:1"));
    run(s.next(out("Sorry, try again.")));
    assert_eq!(
        finish(s.next(out("EXIT:1"))),
        Err("Konnte passwortloses Sudo nicht einrichten (Passwort falsch oder Nutzer nicht sudo-berechtigt): Sorry, try again.".to_string())
    );
    let mut t = SudoSetup::new("bob", "pw");
    run(t.next(out("")));
    assert_eq!(finish(t.next(fail("channel closed"))), Err("channel closed".to_string()));
}

#[test]
fn bootstrap_debian_with_timezone() {
    let mut b = Bootstrap::new(Some("Europe/Berlin".to_string()));
    assert_eq!(run(b.next(out(""))), "id -u gameserver &>/dev/null || sudo useradd -m -s /bin/bash gameserver");
    assert_eq!(run(b.next(out(""))), "grep -E '^(ID|ID_LIKE)=' /etc/os-release");
    assert_eq!(run(b.next(out("ID=debian"))), "sudo apt-get update -y");
    assert!(run(b.next(out(""))).starts_with("sudo apt-get install -y curl wget tar unzip jq"));
    assert!(run(b.next(out(""))).starts_with("echo 'unattended-upgrades"));
    assert!(run(b.next(out(""))).starts_with("test -x /home/gameserver/.steamcmd/steamcmd.sh || "));
    assert_eq!(run(b.next(out(""))), "swapon --show --noheadings 2>/dev/null");
    assert!(run(b.next(out(""))).starts_with("sudo fallocate -l 2G /swapfile"));
    assert!(run(b.next(out(""))).starts_with("sudo mkdir -p /etc/systemd/journald.conf.d"));
    assert_eq!(run(b.next(out(""))), "sudo timedatectl set-timezone Europe/Berlin");
    assert_eq!(finish(b.next(fail("ignored"))), Ok(String::new()));
}

#[test]
fn bootstrap_fedora_with_swap_and_unsafe_timezone() {
    let mut b = Bootstrap::new(Some("Europe/Berlin; rm -rf /".to_string()));
    run(b.next(out("")));
    run(b.next(out("")));
    assert!(run(b.next(out("ID=fedora"))).starts_with("sudo dnf install -y"));
    assert!(run(b.next(out(""))).starts_with("sudo sed -i"));
    assert!(run(b.next(out(""))).starts_with("test -x"));
    run(b.next(out("")));
    // Swap exists already: straight to the journald cap.
    assert!(run(b.next(out("/swapfile file 2G 0B -2\n"))).starts_with("sudo mkdir -p /etc/systemd/journald.conf.d"));
    assert_eq!(finish(b.next(out(""))), Ok(String::new()));
}

#[test]
fn bootstrap_failures() {
    let mut b = Bootstrap::new(None);
    run(b.next(out("")));
    run(b.next(out("")));
    assert!(finish(b.next(out("ID=arch"))).unwrap_err().starts_with("Diese Linux-Distribution wird noch nicht unterstützt"));
    let mut c = Bootstrap::new(None);
    run(c.next(out("")));
    assert_eq!(finish(c.next(fail("no sudo"))), Err("no sudo".to_string()));
}
