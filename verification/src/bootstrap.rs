//! Preparing a fresh server: passwordless sudo for the login user, then the `gameserver`
//! user, base packages, SteamCMD, swap, a journald cap and the time zone. Both are runs that
//! ask for one command at a time and are told how it went.
use vstd::prelude::*;

use crate::provisioning::{
    distro_family_from_os_release, distro_family_of, os_release_command, tolerant_output, Action,
    DistroFamily, ExecOutcome,
};
use crate::text::{chars_of, contains, contains_exec, is_ascii_alnum, is_ascii_alnum_exec, lit, push_all, string_of, trim, trim_exec};

verus! {

/// The probe whose output ends in `EXIT:0` exactly when `sudo` needs no password.
pub open spec fn sudo_check_text() -> Seq<char> {
    "sudo -n true 2>&1; echo EXIT:$?"@
}

/// The script, run with the password on stdin, that grants `username` passwordless sudo.
pub open spec fn sudoers_script_text(username: Seq<char>) -> Seq<char> {
    "sudo -S -p '' bash -c \"echo '"@ + username
        + " ALL=(ALL) NOPASSWD:ALL' > /etc/sudoers.d/grimmnetz && chmod 440 /etc/sudoers.d/grimmnetz\""@
}

pub open spec fn sudo_ok(out: Seq<char>) -> bool {
    contains(out, "EXIT:0"@)
}

pub open spec fn sudo_failure_message(output: Seq<char>) -> Seq<char> {
    "Konnte passwortloses Sudo nicht einrichten (Passwort falsch oder Nutzer nicht sudo-berechtigt): "@
        + output
}

/// Where a sudo setup stands.
#[derive(Clone, Copy, PartialEq, Eq, Structural)]
pub enum SudoStage {
    Start,
    Checked,
    Configured,
    Verified,
    Done,
}

/// Granting the login user passwordless sudo, which every later non-interactive `sudo`
/// needs: nothing happens when `sudo -n` already works; otherwise the password answers
/// sudo's prompt once, for a script that writes a sudoers file, and the probe is repeated.
pub struct SudoSetup {
    pub username: String,
    pub password: String,
    pub stage: SudoStage,
    /// The output of the sudoers script, quoted in the error when the setup did not take.
    pub output: String,
    /// The result once finished.
    pub result: Result<String, String>,
}

fn is_ok_exec(out: &String) -> (res: bool)
    ensures
        res == sudo_ok(out@),
{
    contains_exec(&chars_of(out.as_str()), &lit("EXIT:0"))
}

fn sudo_check_exec() -> (res: String)
    ensures
        res@ == sudo_check_text(),
{
    String::from_str("sudo -n true 2>&1; echo EXIT:$?")
}

impl SudoSetup {
    pub fn new(username: &str, password: &str) -> (res: SudoSetup)
        ensures
            res.username@ == username@,
            res.password@ == password@,
            res.stage == SudoStage::Start,
    {
        SudoSetup {
            username: String::from_str(username),
            password: String::from_str(password),
            stage: SudoStage::Start,
            output: String::new(),
            result: Ok(String::new()),
        }
    }

    /// Takes the outcome of the previous command (ignored on the first call) and says what to
    /// do next; a failing command ends the run with its error.
    pub fn next(&mut self, ev: ExecOutcome) -> (res: Action)
        ensures
            final(self).username == old(self).username,
            final(self).password == old(self).password,
            match old(self).stage {
                SudoStage::Start => res matches Action::Run(c) && c@ == sudo_check_text()
                    && final(self).stage == SudoStage::Checked,
                SudoStage::Checked => match ev {
                    ExecOutcome::Failed(e) => res matches Action::Finish(Err(m)) && m@ == e@,
                    ExecOutcome::Output(o) => if sudo_ok(o@) {
                        res matches Action::Finish(Ok(_))
                    } else {
                        res matches Action::RunWithStdin(c, input) && c@ == sudoers_script_text(
                            old(self).username@,
                        ) && input@ == old(self).password@ + "\n"@ && final(self).stage
                            == SudoStage::Configured
                    },
                },
                SudoStage::Configured => match ev {
                    ExecOutcome::Failed(e) => res matches Action::Finish(Err(m)) && m@ == e@,
                    ExecOutcome::Output(o) => res matches Action::Run(c) && c@ == sudo_check_text()
                        && final(self).stage == SudoStage::Verified && final(self).output@ == o@,
                },
                SudoStage::Verified => match ev {
                    ExecOutcome::Failed(e) => res matches Action::Finish(Err(m)) && m@ == e@,
                    ExecOutcome::Output(o) => if sudo_ok(o@) {
                        res matches Action::Finish(Ok(_))
                    } else {
                        res matches Action::Finish(Err(m)) && m@ == sudo_failure_message(
                            old(self).output@,
                        )
                    },
                },
                SudoStage::Done => res matches Action::Finish(r) && r == old(self).result,
            },
            res matches Action::Finish(r) ==> final(self).stage == SudoStage::Done
                && final(self).result == r,
    {
        match self.stage {
            SudoStage::Start => {
                self.stage = SudoStage::Checked;
                Action::Run(sudo_check_exec())
            },
            SudoStage::Checked => match ev {
                ExecOutcome::Failed(e) => self.finish(Err(e)),
                ExecOutcome::Output(o) => {
                    if is_ok_exec(&o) {
                        self.finish(Ok(String::new()))
                    } else {
                        let mut s = lit("sudo -S -p '' bash -c \"echo '");
                        push_all(&mut s, &chars_of(self.username.as_str()));
                        push_all(
                            &mut s,
                            &lit(
                                " ALL=(ALL) NOPASSWD:ALL' > /etc/sudoers.d/grimmnetz && chmod 440 /etc/sudoers.d/grimmnetz\"",
                            ),
                        );
                        let mut input = chars_of(self.password.as_str());
                        push_all(&mut input, &lit("\n"));
                        self.stage = SudoStage::Configured;
                        Action::RunWithStdin(string_of(&s), string_of(&input))
                    }
                },
            },
            SudoStage::Configured => match ev {
                ExecOutcome::Failed(e) => self.finish(Err(e)),
                ExecOutcome::Output(o) => {
                    self.output = o;
                    self.stage = SudoStage::Verified;
                    Action::Run(sudo_check_exec())
                },
            },
            SudoStage::Verified => match ev {
                ExecOutcome::Failed(e) => self.finish(Err(e)),
                ExecOutcome::Output(o) => {
                    if is_ok_exec(&o) {
                        self.finish(Ok(String::new()))
                    } else {
                        let mut m = lit(
                            "Konnte passwortloses Sudo nicht einrichten (Passwort falsch oder Nutzer nicht sudo-berechtigt): ",
                        );
                        push_all(&mut m, &chars_of(self.output.as_str()));
                        self.finish(Err(string_of(&m)))
                    }
                },
            },
            SudoStage::Done => Action::Finish(clone_result(&self.result)),
        }
    }

    fn finish(&mut self, r: Result<String, String>) -> (res: Action)
        ensures
            final(self).username == old(self).username,
            final(self).password == old(self).password,
            final(self).stage == SudoStage::Done,
            final(self).result == r,
            res == Action::Finish(r),
    {
        self.stage = SudoStage::Done;
        self.result = clone_result(&r);
        Action::Finish(r)
    }
}

/// The package commands for a distro family, in order.
pub open spec fn package_commands(family: DistroFamily) -> Seq<Seq<char>> {
    match family {
        DistroFamily::Debian => seq![
            "sudo apt-get update -y"@,
            "sudo apt-get install -y curl wget tar unzip jq openjdk-21-jre-headless openjdk-25-jre-headless software-properties-common lib32gcc-s1 lib32stdc++6 unattended-upgrades"@,
            "echo 'unattended-upgrades unattended-upgrades/enable_auto_updates boolean true' | sudo debconf-set-selections && sudo dpkg-reconfigure -f noninteractive unattended-upgrades"@,
        ],
        DistroFamily::Fedora => seq![
            "sudo dnf install -y curl wget tar unzip jq java-21-openjdk-headless java-latest-openjdk-headless glibc.i686 libstdc++.i686 ncurses-libs.i686 dnf-automatic"@,
            "sudo sed -i 's/^apply_updates = no/apply_updates = yes/' /etc/dnf/automatic.conf && sudo systemctl enable --now dnf-automatic.timer"@,
        ],
    }
}

fn package_command(family: DistroFamily, k: usize) -> (res: String)
    requires
        k < package_commands(family).len(),
    ensures
        res@ == package_commands(family)[k as int],
{
    match family {
        DistroFamily::Debian => if k == 0 {
            String::from_str("sudo apt-get update -y")
        } else if k == 1 {
            String::from_str(
                "sudo apt-get install -y curl wget tar unzip jq openjdk-21-jre-headless openjdk-25-jre-headless software-properties-common lib32gcc-s1 lib32stdc++6 unattended-upgrades",
            )
        } else {
            String::from_str(
                "echo 'unattended-upgrades unattended-upgrades/enable_auto_updates boolean true' | sudo debconf-set-selections && sudo dpkg-reconfigure -f noninteractive unattended-upgrades",
            )
        },
        DistroFamily::Fedora => if k == 0 {
            String::from_str(
                "sudo dnf install -y curl wget tar unzip jq java-21-openjdk-headless java-latest-openjdk-headless glibc.i686 libstdc++.i686 ncurses-libs.i686 dnf-automatic",
            )
        } else {
            String::from_str(
                "sudo sed -i 's/^apply_updates = no/apply_updates = yes/' /etc/dnf/automatic.conf && sudo systemctl enable --now dnf-automatic.timer",
            )
        },
    }
}

fn package_count(family: DistroFamily) -> (res: usize)
    ensures
        res == package_commands(family).len(),
{
    match family {
        DistroFamily::Debian => 3,
        DistroFamily::Fedora => 2,
    }
}

pub open spec fn gameserver_user_text() -> Seq<char> {
    "id -u gameserver &>/dev/null || sudo useradd -m -s /bin/bash gameserver"@
}

pub open spec fn steamcmd_text() -> Seq<char> {
    "test -x /home/gameserver/.steamcmd/steamcmd.sh || sudo -u gameserver bash -c \"mkdir -p /home/gameserver/.steamcmd && cd /home/gameserver/.steamcmd && curl -sqL 'https://steamcdn-a.akamaihd.net/client/installer/steamcmd_linux.tar.gz' | tar zxf -\""@
}

pub open spec fn swap_check_text() -> Seq<char> {
    "swapon --show --noheadings 2>/dev/null"@
}

pub open spec fn swap_create_text() -> Seq<char> {
    "sudo fallocate -l 2G /swapfile || sudo dd if=/dev/zero of=/swapfile bs=1M count=2048 && sudo chmod 600 /swapfile && sudo mkswap /swapfile && sudo swapon /swapfile && grep -q '/swapfile' /etc/fstab || echo '/swapfile none swap sw 0 0' | sudo tee -a /etc/fstab > /dev/null"@
}

pub open spec fn journal_limit_text() -> Seq<char> {
    "sudo mkdir -p /etc/systemd/journald.conf.d && echo -e '[Journal]\\nSystemMaxUse=200M' | sudo tee /etc/systemd/journald.conf.d/grimmnetz.conf > /dev/null && sudo systemctl restart systemd-journald"@
}

/// A time zone that is forwarded to the shell: only ASCII letters, digits, `/`, `_`, `+`, `-`.
pub open spec fn is_forwardable_timezone(tz: Seq<char>) -> bool {
    forall|i: int|
        0 <= i < tz.len() ==> is_ascii_alnum(#[trigger] tz[i]) || tz[i] == '/' || tz[i] == '_'
            || tz[i] == '+' || tz[i] == '-'
}

fn forwardable_timezone_exec(tz: &Vec<char>) -> (res: bool)
    ensures
        res == is_forwardable_timezone(tz@),
{
    let mut i: usize = 0;
    while i < tz.len()
        invariant
            i <= tz.len(),
            forall|j: int|
                0 <= j < i ==> is_ascii_alnum(#[trigger] tz@[j]) || tz@[j] == '/' || tz@[j] == '_'
                    || tz@[j] == '+' || tz@[j] == '-',
        decreases tz.len() - i,
    {
        let c = tz[i];
        if !(is_ascii_alnum_exec(c) || c == '/' || c == '_' || c == '+' || c == '-') {
            return false;
        }
        i += 1;
    }
    true
}

pub open spec fn timezone_text(tz: Seq<char>) -> Seq<char> {
    "sudo timedatectl set-timezone "@ + tz
}

/// Where a bootstrap stands: the step whose outcome comes next.
#[derive(Clone, Copy, PartialEq, Eq, Structural)]
pub enum BootStage {
    Start,
    User,
    Detect,
    /// The package command with this index ran.
    Packages(usize),
    SteamCmd,
    SwapCheck,
    Swap,
    Journal,
    Timezone,
    Done,
}

/// Bootstrapping a server.
pub struct Bootstrap {
    /// The time zone of the app's machine, if known.
    pub timezone: Option<String>,
    pub family: Option<DistroFamily>,
    pub stage: BootStage,
    pub result: Result<String, String>,
}

/// The action after the journald cap: the time zone, when there is one that may be forwarded.
pub open spec fn after_journal(tz: Option<String>) -> Option<Seq<char>> {
    match tz {
        Some(t) => if is_forwardable_timezone(t@) {
            Some(timezone_text(t@))
        } else {
            None
        },
        None => None,
    }
}

impl Bootstrap {
    pub open spec fn wf(&self) -> bool {
        match self.stage {
            BootStage::Packages(k) => self.family is Some && k < package_commands(self.family->0).len(),
            _ => true,
        }
    }

    pub fn new(timezone: Option<String>) -> (res: Bootstrap)
        ensures
            res.timezone == timezone,
            res.stage == BootStage::Start,
            res.family is None,
            res.wf(),
    {
        Bootstrap { timezone, family: None, stage: BootStage::Start, result: Ok(String::new()) }
    }

    fn finish(&mut self, r: Result<String, String>) -> (res: Action)
        ensures
            final(self).timezone == old(self).timezone,
            final(self).family == old(self).family,
            final(self).stage == BootStage::Done,
            final(self).result == r,
            res == Action::Finish(r),
    {
        self.stage = BootStage::Done;
        self.result = clone_result(&r);
        Action::Finish(r)
    }

    /// Takes the outcome of the previous command (ignored on the first call) and says what to
    /// do next. Every step but the swap probe and the time zone must succeed; the first
    /// failure ends the run with its error.
    pub fn next(&mut self, ev: ExecOutcome) -> (res: Action)
        requires
            old(self).wf(),
        ensures
            final(self).wf(),
            final(self).timezone == old(self).timezone,
            res matches Action::Finish(r) ==> final(self).stage == BootStage::Done
                && final(self).result == r,
            !(res is RunWithStdin),
            // A required step that failed ends the run with its error.
            (ev matches ExecOutcome::Failed(e) && match old(self).stage {
                BootStage::User | BootStage::Detect | BootStage::Packages(_) | BootStage::SteamCmd
                | BootStage::Swap | BootStage::Journal => true,
                _ => false,
            }) ==> res == Action::Finish(Err(ev->Failed_0)),
            match old(self).stage {
                BootStage::Start => res matches Action::Run(c) && c@ == gameserver_user_text(),
                BootStage::User => ev is Output ==> (res matches Action::Run(c) && c@
                    == "grep -E '^(ID|ID_LIKE)=' /etc/os-release"@),
                BootStage::Detect => ev matches ExecOutcome::Output(o) ==> match distro_family_of(
                    o@,
                ) {
                    Ok(f) => final(self).family == Some(f) && (res matches Action::Run(c) && c@
                        == package_commands(f)[0]),
                    Err(m) => res matches Action::Finish(Err(e)) && e@ == m,
                },
                BootStage::Packages(k) => ev is Output ==> (res matches Action::Run(c) && c@ == (
                if k + 1 < package_commands(old(self).family->0).len() {
                    package_commands(old(self).family->0)[k + 1]
                } else {
                    steamcmd_text()
                })),
                BootStage::SteamCmd => ev is Output ==> (res matches Action::Run(c) && c@
                    == swap_check_text()),
                BootStage::SwapCheck => res matches Action::Run(c) && c@ == (if trim(
                    tolerant_output(ev),
                ).len() > 0 {
                    journal_limit_text()
                } else {
                    swap_create_text()
                }),
                BootStage::Swap => ev is Output ==> (res matches Action::Run(c) && c@
                    == journal_limit_text()),
                BootStage::Journal => ev is Output ==> match after_journal(old(self).timezone) {
                    Some(c) => res matches Action::Run(x) && x@ == c,
                    None => res matches Action::Finish(Ok(_)),
                },
                BootStage::Timezone => res matches Action::Finish(Ok(_)),
                BootStage::Done => res == Action::Finish(old(self).result),
            },
    {
        match self.stage {
            BootStage::Start => {
                self.stage = BootStage::User;
                Action::Run(
                    String::from_str(
                        "id -u gameserver &>/dev/null || sudo useradd -m -s /bin/bash gameserver",
                    ),
                )
            },
            BootStage::User => match ev {
                ExecOutcome::Failed(e) => self.finish(Err(e)),
                ExecOutcome::Output(_) => {
                    self.stage = BootStage::Detect;
                    Action::Run(os_release_command())
                },
            },
            BootStage::Detect => match ev {
                ExecOutcome::Failed(e) => self.finish(Err(e)),
                ExecOutcome::Output(o) => match distro_family_from_os_release(o.as_str()) {
                    Ok(f) => {
                        self.family = Some(f);
                        self.stage = BootStage::Packages(0);
                        Action::Run(package_command(f, 0))
                    },
                    Err(m) => self.finish(Err(m)),
                },
            },
            BootStage::Packages(k) => match ev {
                ExecOutcome::Failed(e) => self.finish(Err(e)),
                ExecOutcome::Output(_) => {
                    let f = match self.family {
                        Some(f) => f,
                        None => DistroFamily::Debian,
                    };
                    if k + 1 < package_count(f) {
                        self.stage = BootStage::Packages(k + 1);
                        Action::Run(package_command(f, k + 1))
                    } else {
                        self.stage = BootStage::SteamCmd;
                        Action::Run(
                            String::from_str(
                                "test -x /home/gameserver/.steamcmd/steamcmd.sh || sudo -u gameserver bash -c \"mkdir -p /home/gameserver/.steamcmd && cd /home/gameserver/.steamcmd && curl -sqL 'https://steamcdn-a.akamaihd.net/client/installer/steamcmd_linux.tar.gz' | tar zxf -\"",
                            ),
                        )
                    }
                },
            },
            BootStage::SteamCmd => match ev {
                ExecOutcome::Failed(e) => self.finish(Err(e)),
                ExecOutcome::Output(_) => {
                    self.stage = BootStage::SwapCheck;
                    Action::Run(String::from_str("swapon --show --noheadings 2>/dev/null"))
                },
            },
            BootStage::SwapCheck => {
                let existing = match ev {
                    ExecOutcome::Output(o) => o,
                    ExecOutcome::Failed(_) => String::new(),
                };
                if trim_exec(&chars_of(existing.as_str())).len() > 0 {
                    self.stage = BootStage::Journal;
                    Action::Run(journal_exec())
                } else {
                    self.stage = BootStage::Swap;
                    Action::Run(
                        String::from_str(
                            "sudo fallocate -l 2G /swapfile || sudo dd if=/dev/zero of=/swapfile bs=1M count=2048 && sudo chmod 600 /swapfile && sudo mkswap /swapfile && sudo swapon /swapfile && grep -q '/swapfile' /etc/fstab || echo '/swapfile none swap sw 0 0' | sudo tee -a /etc/fstab > /dev/null",
                        ),
                    )
                }
            },
            BootStage::Swap => match ev {
                ExecOutcome::Failed(e) => self.finish(Err(e)),
                ExecOutcome::Output(_) => {
                    self.stage = BootStage::Journal;
                    Action::Run(journal_exec())
                },
            },
            BootStage::Journal => match ev {
                ExecOutcome::Failed(e) => self.finish(Err(e)),
                ExecOutcome::Output(_) => {
                    let tz_cmd = match &self.timezone {
                        Some(tz) => {
                            let t = chars_of(tz.as_str());
                            if forwardable_timezone_exec(&t) {
                                let mut c = lit("sudo timedatectl set-timezone ");
                                push_all(&mut c, &t);
                                Some(string_of(&c))
                            } else {
                                None
                            }
                        },
                        None => None,
                    };
                    match tz_cmd {
                        Some(c) => {
                            self.stage = BootStage::Timezone;
                            Action::Run(c)
                        },
                        None => self.finish(Ok(String::new())),
                    }
                },
            },
            BootStage::Timezone => self.finish(Ok(String::new())),
            BootStage::Done => Action::Finish(clone_result(&self.result)),
        }
    }
}

fn clone_result(r: &Result<String, String>) -> (res: Result<String, String>)
    ensures
        res == *r,
{
    match r {
        Ok(s) => Ok(s.clone()),
        Err(e) => Err(e.clone()),
    }
}

fn journal_exec() -> (res: String)
    ensures
        res@ == journal_limit_text(),
{
    String::from_str(
        "sudo mkdir -p /etc/systemd/journald.conf.d && echo -e '[Journal]\\nSystemMaxUse=200M' | sudo tee /etc/systemd/journald.conf.d/grimmnetz.conf > /dev/null && sudo systemctl restart systemd-journald",
    )
}

} // verus!
