//! Daily restarts kept as systemd timers on the game server, and the announced restart or
//! stop that an operator starts by hand.
use vstd::prelude::*;

use crate::countdown::{
    build_countdown_script, countdown_script_text, i32_or_zero, shift_time, shifted_minutes,
};
use crate::games::GameTemplate;
use crate::paths::{is_plain_identifier, is_plain_identifier_exec, timer_name};
use crate::records::{InstanceRecord, ScheduledRestart};
use crate::ids::{is_lower_hex, new_simple_uuid};
use crate::text::{
    byte_slice, char_index_at, digit_char, find, is_first_occurrence, lemma_char_index_ascii, lemma_find_is, occurs_at, str_get, utf8_len,
    all_digits, chars_of, digit_value, digits_value, eq_exec, is_digit, lines, lines_exec, lit, parse_signed,
    parse_unsigned, push_all, replace, replace_exec, slice_of, split_once, split_once_exec,
    string_of, strip_prefix, strip_prefix_exec, two_digits, starts_with, is_ascii_alnum,
};

verus! {

/// The hour and minute parts of `time` when it reads `HH:MM` with two ASCII digits on each
/// side of the first colon (the hours and minutes themselves are not range-checked).
pub open spec fn clock_parts(time: Seq<char>) -> Option<(Seq<char>, Seq<char>)> {
    match split_once(time, ":"@) {
        Some((h, m)) => if h.len() == 2 && m.len() == 2 && all_digits(h) && all_digits(m) {
            Some((h, m))
        } else {
            None
        },
        None => None,
    }
}

/// The hour part of a `HH:MM` time.
pub open spec fn clock_hour(time: Seq<char>) -> Seq<char> {
    match clock_parts(time) {
        Some((h, _)) => h,
        None => seq![],
    }
}

/// The minute part of a `HH:MM` time.
pub open spec fn clock_minute(time: Seq<char>) -> Seq<char> {
    match clock_parts(time) {
        Some((_, m)) => m,
        None => seq![],
    }
}

fn two_ascii_digits(s: &Vec<char>) -> (res: bool)
    ensures
        res == (s@.len() == 2 && all_digits(s@)),
{
    s.len() == 2 && '0' <= s[0] && s[0] <= '9' && '0' <= s[1] && s[1] <= '9'
}

/// Splits a `HH:MM` time into its two parts, or refuses it.
pub fn parse_clock_time(time: &str) -> (res: Result<(String, String), String>)
    ensures
        match clock_parts(time@) {
            Some((h, m)) => res matches Ok((a, b)) && a@ == h && b@ == m,
            None => res matches Err(e) && e@ == "Ungültige Uhrzeit"@,
        },
{
    let colon = lit(":");
    match split_once_exec(&chars_of(time), &colon) {
        Some((h, m)) => {
            if two_ascii_digits(&h) && two_ascii_digits(&m) {
                return Ok((string_of(&h), string_of(&m)));
            }
        },
        None => {},
    }
    Err(String::from_str("Ungültige Uhrzeit"))
}

/// `HH:MM` moved by `delta` minutes, as `shift_time` writes it.
pub open spec fn shifted_clock(h: Seq<char>, m: Seq<char>, delta: int) -> Seq<char> {
    two_digits((shifted_minutes(h, m, delta) / 60) as nat) + ":"@ + two_digits(
        (shifted_minutes(h, m, delta) % 60) as nat,
    )
}

/// What the systemd names of the restart timers of `unit_name` start with.
pub open spec fn restart_prefix(unit_name: Seq<char>) -> Seq<char> {
    "grimmnetz-restart-"@ + unit_name + "-"@
}

/// The systemd unit name of a daily restart timer.
pub open spec fn restart_unit_name(unit_name: Seq<char>, id: Seq<char>) -> Seq<char> {
    restart_prefix(unit_name) + id
}

/// The oneshot service that runs the countdown script.
pub open spec fn restart_service_text(unit_name: Seq<char>, script: Seq<char>) -> Seq<char> {
    "[Unit]\nDescription=Geplanter Neustart fuer "@ + unit_name
        + "\n\n[Service]\nType=oneshot\nExecStart=/bin/bash -c '"@ + replace(
        script,
        "'"@,
        "'\\''"@,
    ) + "'\n"@
}

/// The timer, firing daily at `calendar_time` (`HH:MM:SS`).
pub open spec fn restart_timer_text(unit_name: Seq<char>, calendar_time: Seq<char>) -> Seq<char> {
    "[Unit]\nDescription=Timer fuer geplanten Neustart von "@ + unit_name
        + "\n\n[Timer]\nOnCalendar=*-*-* "@ + calendar_time
        + "\nPersistent=false\n\n[Install]\nWantedBy=timers.target\n"@
}

/// The time the timer fires: fifteen minutes before the restart, when the countdown starts.
pub open spec fn calendar_time(h: Seq<char>, m: Seq<char>) -> Seq<char> {
    shifted_clock(h, m, -15) + ":00"@
}

/// The two unit files of a daily restart.
pub struct RestartTimerFiles {
    /// The systemd name shared by the timer and its service.
    pub unit_name: String,
    pub service_contents: String,
    pub timer_contents: String,
}

impl RestartTimerFiles {
    pub open spec fn view_parts(self) -> (Seq<char>, Seq<char>, Seq<char>) {
        (self.unit_name@, self.service_contents@, self.timer_contents@)
    }
}

/// The files of the daily restart `id` of `unit_name` at `time`, or why there are none.
pub open spec fn restart_files_text(
    instance: Option<InstanceRecord>,
    template: Option<GameTemplate>,
    unit_name: Seq<char>,
    time: Seq<char>,
    id: Seq<char>,
) -> Result<(Seq<char>, Seq<char>, Seq<char>), Seq<char>> {
    match clock_parts(time) {
        None => Err("Ungültige Uhrzeit"@),
        Some((h, m)) => if !(is_plain_identifier(unit_name) && is_plain_identifier(id)) {
            Err("Ungültiger Bezeichner"@)
        } else {
            let script = countdown_script_text(
                instance,
                template,
                unit_name,
                "restart"@,
                None,
                900,
            );
            Ok(
                (
                    restart_unit_name(unit_name, id),
                    restart_service_text(unit_name, script),
                    restart_timer_text(unit_name, calendar_time(h, m)),
                ),
            )
        },
    }
}

proof fn lemma_two_digit_value(s: Seq<char>)
    requires
        s.len() == 2,
        all_digits(s),
    ensures
        digits_value(s) < 100,
        i32_or_zero(s) == digits_value(s),
{
    assert(s.drop_last().drop_last() =~= Seq::<char>::empty());
    assert(is_digit(s[0]) && is_digit(s[1]));
    assert(s[0] != '-' && s[0] != '+');
    assert(s.drop_last().last() == s[0]);
    assert(digits_value(s.drop_last()) == digit_value(s[0])) by {
        reveal_with_fuel(digits_value, 2);
    }
    assert(digits_value(s) == digit_value(s[0]) * 10 + digit_value(s[1]));
    assert(digit_value(s[0]) <= 9 && digit_value(s[1]) <= 9);
    assert(parse_unsigned(s, i32::MAX as nat) == Some(digits_value(s)));
}

/// The unit files of the daily restart `id` of `unit_name` at `time` (`HH:MM`): a oneshot
/// service running the fifteen-minute countdown script, and a timer firing it fifteen minutes
/// before `time`.
pub fn scheduled_restart_files(
    instance: &Option<InstanceRecord>,
    template: &Option<GameTemplate>,
    unit_name: &str,
    time: &str,
    id: &str,
) -> (res: Result<RestartTimerFiles, String>)
    ensures
        match restart_files_text(*instance, *template, unit_name@, time@, id@) {
            Ok(f) => res matches Ok(x) && x.view_parts() == f,
            Err(e) => res matches Err(x) && x@ == e,
        },
{
    let (hh, mm) = match parse_clock_time(time) {
        Ok(p) => p,
        Err(e) => return Err(e),
    };
    let tn = match timer_name(unit_name, id) {
        Ok(n) => n,
        Err(e) => return Err(e),
    };
    let mut full = lit("grimmnetz-");
    push_all(&mut full, &chars_of(tn.as_str()));
    proof {
        lemma_two_digit_value(hh@);
        lemma_two_digit_value(mm@);
    }
    let restart = String::from_str("restart");
    let script = build_countdown_script(instance, template, unit_name, restart.as_str(), None, 900);
    proof {
        reveal_strlit("restart");
    }
    let (wh, wm) = shift_time(hh.as_str(), mm.as_str(), -15);
    let q = lit("'");
    let e = lit("'\\''");
    proof {
        reveal_strlit("'");
        reveal_strlit("'\\''");
    }
    let mut service = lit("[Unit]\nDescription=Geplanter Neustart fuer ");
    push_all(&mut service, &chars_of(unit_name));
    push_all(&mut service, &lit("\n\n[Service]\nType=oneshot\nExecStart=/bin/bash -c '"));
    push_all(&mut service, &replace_exec(&chars_of(script.as_str()), &q, &e));
    push_all(&mut service, &lit("'\n"));
    let mut timer = lit("[Unit]\nDescription=Timer fuer geplanten Neustart von ");
    push_all(&mut timer, &chars_of(unit_name));
    push_all(&mut timer, &lit("\n\n[Timer]\nOnCalendar=*-*-* "));
    push_all(&mut timer, &chars_of(wh.as_str()));
    push_all(&mut timer, &lit(":"));
    push_all(&mut timer, &chars_of(wm.as_str()));
    push_all(&mut timer, &lit(":00"));
    push_all(&mut timer, &lit("\nPersistent=false\n\n[Install]\nWantedBy=timers.target\n"));
    proof {
        reveal_strlit("grimmnetz-");
        reveal_strlit("restart-");
        reveal_strlit("grimmnetz-restart-");
        assert(full@ =~= restart_unit_name(unit_name@, id@));
        assert(timer@ =~= restart_timer_text(unit_name@, calendar_time(hh@, mm@)));
    }
    Ok(
        RestartTimerFiles {
            unit_name: string_of(&full),
            service_contents: string_of(&service),
            timer_contents: string_of(&timer),
        },
    )
}


/// The ids `add_scheduled_restart` gives: eight lower-case hex digits.
pub open spec fn is_timer_id(id: Seq<char>) -> bool {
    id.len() == 8 && forall|i: int| 0 <= i < 8 ==> is_lower_hex(#[trigger] id[i])
}

/// Adds a daily restart of `unit_name` at `time` (`HH:MM`) under a fresh random id: the unit
/// files to install. A malformed time or unit name is refused.
pub fn add_scheduled_restart(
    instance: &Option<InstanceRecord>,
    template: &Option<GameTemplate>,
    unit_name: &str,
    time: &str,
) -> (res: Result<RestartTimerFiles, String>)
    ensures
        clock_parts(time@) is None ==> (res matches Err(e) && e@ == "Ungültige Uhrzeit"@),
        clock_parts(time@) is Some && !is_plain_identifier(unit_name@) ==> (res matches Err(e)
            && e@ == "Ungültiger Bezeichner"@),
        clock_parts(time@) is Some && is_plain_identifier(unit_name@) ==> (res matches Ok(f)
            && exists|id: Seq<char>|
            is_timer_id(id) && restart_files_text(*instance, *template, unit_name@, time@, id)
                == Ok::<_, Seq<char>>(f.view_parts())),
{
    match parse_clock_time(time) {
        Ok(_) => {},
        Err(e) => return Err(e),
    }
    let full = new_simple_uuid();
    let id = slice_of(&chars_of(full.as_str()), 0, 8);
    let ghost idv = id@;
    assert(is_timer_id(idv)) by {
        assert forall|i: int| 0 <= i < 8 implies is_lower_hex(#[trigger] idv[i]) by {
            assert(idv[i] == full@[i]);
        }
    }
    assert(is_plain_identifier(idv)) by {
        assert forall|i: int| 0 <= i < idv.len() implies crate::text::is_ascii_alnum(#[trigger] idv[i])
            || idv[i] == '-' by {
            assert(is_lower_hex(idv[i]));
        }
    }
    let r = scheduled_restart_files(instance, template, unit_name, time, string_of(&id).as_str());
    proof {
        reveal_strlit("Ungültige Uhrzeit");
        reveal_strlit("Ungültiger Bezeichner");
    }
    r
}

/// The command that writes the timer file of a daily restart and switches the timer on (its
/// service is installed like any other unit, before this).
pub open spec fn timer_install_text(full_name: Seq<char>, timer_contents: Seq<char>) -> Seq<char> {
    "sudo tee /etc/systemd/system/"@ + full_name + ".timer > /dev/null <<'GRIMMNETZ_EOF'\n"@
        + timer_contents + "GRIMMNETZ_EOF\nsudo systemctl daemon-reload && sudo systemctl enable --now "@
        + full_name + ".timer"@
}

pub fn timer_install_command(files: &RestartTimerFiles) -> (res: String)
    ensures
        res@ == timer_install_text(files.unit_name@, files.timer_contents@),
{
    let n = chars_of(files.unit_name.as_str());
    let mut c = lit("sudo tee /etc/systemd/system/");
    push_all(&mut c, &n);
    push_all(&mut c, &lit(".timer > /dev/null <<'GRIMMNETZ_EOF'\n"));
    push_all(&mut c, &chars_of(files.timer_contents.as_str()));
    push_all(&mut c, &lit("GRIMMNETZ_EOF\nsudo systemctl daemon-reload && sudo systemctl enable --now "));
    push_all(&mut c, &n);
    push_all(&mut c, &lit(".timer"));
    string_of(&c)
}

/// The command that removes the daily restart `id` of `unit_name`, timer and service.
pub open spec fn remove_restart_text(full_name: Seq<char>) -> Seq<char> {
    "sudo systemctl disable --now "@ + full_name
        + ".timer 2>/dev/null; sudo rm -f /etc/systemd/system/"@ + full_name
        + ".timer /etc/systemd/system/"@ + full_name + ".service; sudo systemctl daemon-reload"@
}

/// Removes the daily restart `id` of `unit_name`; refuses a malformed name or id.
pub fn remove_scheduled_restart(unit_name: &str, id: &str) -> (res: Result<String, String>)
    ensures
        is_plain_identifier(unit_name@) && is_plain_identifier(id@) ==> (res matches Ok(c) && c@
            == remove_restart_text(restart_unit_name(unit_name@, id@))),
        !(is_plain_identifier(unit_name@) && is_plain_identifier(id@)) ==> (res matches Err(m)
            && m@ == "Ungültiger Bezeichner"@),
{
    let tn = match timer_name(unit_name, id) {
        Ok(n) => n,
        Err(e) => return Err(e),
    };
    let mut full = lit("grimmnetz-");
    push_all(&mut full, &chars_of(tn.as_str()));
    proof {
        reveal_strlit("grimmnetz-");
        reveal_strlit("restart-");
        reveal_strlit("grimmnetz-restart-");
        assert(full@ =~= restart_unit_name(unit_name@, id@));
    }
    let mut c = lit("sudo systemctl disable --now ");
    push_all(&mut c, &full);
    push_all(&mut c, &lit(".timer 2>/dev/null; sudo rm -f /etc/systemd/system/"));
    push_all(&mut c, &full);
    push_all(&mut c, &lit(".timer /etc/systemd/system/"));
    push_all(&mut c, &full);
    push_all(&mut c, &lit(".service; sudo systemctl daemon-reload"));
    Ok(string_of(&c))
}

/// The command whose output lists the restart timers of `unit_name`, one `NAME|HH:MM:SS`
/// line per timer (the time the timer fires).
pub open spec fn restart_list_text(unit_name: Seq<char>) -> Seq<char> {
    "for f in /etc/systemd/system/"@ + restart_prefix(unit_name)
        + "*.timer; do [ -e \"$f\" ] || continue; NAME=$(basename \"$f\" .timer); CAL=$(grep -oP 'OnCalendar=\\*-\\*-\\* \\K[0-9:]+' \"$f\"); echo \"$NAME|$CAL\"; done"@
}

/// The listing command for the restart timers of `unit_name`; refuses a malformed name.
pub fn list_restarts_command(unit_name: &str) -> (res: Result<String, String>)
    ensures
        is_plain_identifier(unit_name@) ==> (res matches Ok(c) && c@ == restart_list_text(
            unit_name@,
        )),
        !is_plain_identifier(unit_name@) ==> (res matches Err(m) && m@
            == "Ungültiger Bezeichner"@),
{
    let u = chars_of(unit_name);
    if !is_plain_identifier_exec(&u) {
        return Err(String::from_str("Ungültiger Bezeichner"));
    }
    let mut c = lit("for f in /etc/systemd/system/grimmnetz-restart-");
    push_all(&mut c, &u);
    push_all(&mut c, &lit("-"));
    push_all(
        &mut c,
        &lit(
            "*.timer; do [ -e \"$f\" ] || continue; NAME=$(basename \"$f\" .timer); CAL=$(grep -oP 'OnCalendar=\\*-\\*-\\* \\K[0-9:]+' \"$f\"); echo \"$NAME|$CAL\"; done",
        ),
    );
    proof {
        reveal_strlit("for f in /etc/systemd/system/grimmnetz-restart-");
        reveal_strlit("for f in /etc/systemd/system/");
        reveal_strlit("grimmnetz-restart-");
    }
    assert(c@ =~= restart_list_text(unit_name@));
    Ok(string_of(&c))
}

/// One line of the listing, read back: the timer's id and the restart time it stands for
/// (fifteen minutes after it fires), when the line names a timer of `unit_name`.
pub open spec fn restart_entry(unit_name: Seq<char>, line: Seq<char>) -> Option<
    (Seq<char>, Seq<char>),
> {
    restart_entry_with(restart_prefix(unit_name), line)
}

pub open spec fn restart_entries(unit_name: Seq<char>, ls: Seq<Seq<char>>) -> Seq<
    (Seq<char>, Seq<char>),
>
    decreases ls.len(),
{
    if ls.len() == 0 {
        seq![]
    } else {
        let r = restart_entries(unit_name, ls.drop_last());
        match restart_entry(unit_name, ls.last()) {
            Some(e) => r.push(e),
            None => r,
        }
    }
}

pub open spec fn restart_view(r: ScheduledRestart) -> (Seq<char>, Seq<char>) {
    (r.id@, r.time@)
}

proof fn lemma_char_index_bound(s: Seq<char>, b: nat)
    ensures
        char_index_at(s, b) matches Some(i) ==> 0 <= i <= b && i <= s.len(),
    decreases s.len(),
{
    if b > 0 && s.len() > 0 && b >= utf8_len(s[0]) {
        lemma_char_index_bound(s.drop_first(), (b - utf8_len(s[0])) as nat);
    }
}

proof fn lemma_char_index_span(s: Seq<char>, a: nat, b: nat)
    requires
        a <= b,
    ensures
        char_index_at(s, a) is Some && char_index_at(s, b) is Some ==> char_index_at(s, a)->0
            <= char_index_at(s, b)->0 && char_index_at(s, b)->0 - char_index_at(s, a)->0 <= b - a,
    decreases s.len(),
{
    lemma_char_index_bound(s, b);
    if a > 0 && s.len() > 0 && a >= utf8_len(s[0]) {
        lemma_char_index_span(
            s.drop_first(),
            (a - utf8_len(s[0])) as nat,
            (b - utf8_len(s[0])) as nat,
        );
    }
}

proof fn lemma_slice_len(s: Seq<char>, from: nat, to: nat)
    ensures
        byte_slice(s, from, to) matches Some(r) ==> r.len() <= to - from,
{
    if from <= to {
        lemma_char_index_span(s, from, to);
        lemma_char_index_bound(s, to);
        lemma_char_index_bound(s, from);
        if char_index_at(s, from) is Some && char_index_at(s, to) is Some {
            let i = char_index_at(s, from)->0;
            let j = char_index_at(s, to)->0;
            assert(0 <= i <= j <= s.len());
            assert(byte_slice(s, from, to) == Some(s.subrange(i, j)));
        }
    }
}

proof fn lemma_short_value(s: Seq<char>)
    requires
        s.len() <= 2,
    ensures
        -99 <= i32_or_zero(s) <= 99,
{
    reveal_with_fuel(digits_value, 3);
    if s.len() > 0 {
        assert(s.drop_first().len() < 2);
        if s.len() == 2 {
            assert(s.drop_last().drop_last() =~= Seq::<char>::empty());
            assert(s.drop_first().drop_last() =~= Seq::<char>::empty());
        } else {
            assert(s.drop_last() =~= Seq::<char>::empty());
            assert(s.drop_first() =~= Seq::<char>::empty());
        }
    }
    let d = if s.len() > 0 && s[0] == '+' {
        s.drop_first()
    } else {
        s
    };
    if all_digits(d) && d.len() == 2 {
        assert(d.drop_last().last() == d[0]);
        assert(is_digit(d[0]) && is_digit(d[1]));
        assert(digit_value(d[0]) <= 9 && digit_value(d[1]) <= 9);
    }
    if all_digits(d) && d.len() == 1 {
        assert(is_digit(d[0]));
    }
    if s.len() > 0 && s[0] == '-' && s.drop_first().len() == 1 && all_digits(s.drop_first()) {
        assert(is_digit(s.drop_first()[0]));
    }
}

fn restart_line_exec(prefix: &Vec<char>, line: &Vec<char>) -> (res: Option<ScheduledRestart>)
    ensures
        match restart_entry_with(prefix@, line@) {
            Some(e) => res matches Some(r) && restart_view(r) == e,
            None => res is None,
        },
{
    let bar = lit("|");
    let (name, cal) = match split_once_exec(line, &bar) {
        Some(p) => p,
        None => return None,
    };
    let id = match strip_prefix_exec(&name, prefix) {
        Some(i) => i,
        None => return None,
    };
    let cal_s = string_of(&cal);
    let h = match str_get(cal_s.as_str(), 0, 2) {
        Some(x) => x,
        None => return None,
    };
    let m = match str_get(cal_s.as_str(), 3, 5) {
        Some(x) => x,
        None => return None,
    };
    proof {
        lemma_slice_len(cal@, 0, 2);
        lemma_slice_len(cal@, 3, 5);
        lemma_short_value(h@);
        lemma_short_value(m@);
    }
    let (hh, mm) = shift_time(h.as_str(), m.as_str(), 15);
    let mut t = chars_of(hh.as_str());
    push_all(&mut t, &lit(":"));
    push_all(&mut t, &chars_of(mm.as_str()));
    Some(ScheduledRestart { id: string_of(&id), time: string_of(&t) })
}

/// `restart_entry` with the name prefix already built.
pub open spec fn restart_entry_with(prefix: Seq<char>, line: Seq<char>) -> Option<
    (Seq<char>, Seq<char>),
> {
    match split_once(line, "|"@) {
        None => None,
        Some((name, cal)) => match strip_prefix(name, prefix) {
            None => None,
            Some(id) => match (byte_slice(cal, 0, 2), byte_slice(cal, 3, 5)) {
                (Some(h), Some(m)) => Some((id, shifted_clock(h, m, 15))),
                _ => None,
            },
        },
    }
}

/// Reads the output of the listing command: the daily restarts of `unit_name`, each with the
/// time it restarts at, in listing order; lines of other timers or without a time are skipped.
pub fn parse_scheduled_restarts(unit_name: &str, output: &str) -> (res: Vec<ScheduledRestart>)
    ensures
        res@.map_values(|r: ScheduledRestart| restart_view(r)) == restart_entries(
            unit_name@,
            lines(output@),
        ),
{
    let mut prefix = lit("grimmnetz-restart-");
    push_all(&mut prefix, &chars_of(unit_name));
    push_all(&mut prefix, &lit("-"));
    proof {
        reveal_strlit("grimmnetz-restart-");
    }
    assert(prefix@ =~= restart_prefix(unit_name@));
    let ls = lines_exec(&chars_of(output));
    let ghost lv = ls@.map_values(|v: Vec<char>| v@);
    assert(lv == lines(output@));
    let mut res: Vec<ScheduledRestart> = Vec::new();
    let mut i: usize = 0;
    while i < ls.len()
        invariant
            i <= ls.len(),
            lv == ls@.map_values(|v: Vec<char>| v@),
            prefix@ == restart_prefix(unit_name@),
            res@.map_values(|r: ScheduledRestart| restart_view(r)) == restart_entries(
                unit_name@,
                lv.take(i as int),
            ),
        decreases ls.len() - i,
    {
        assert(lv.take(i + 1).drop_last() =~= lv.take(i as int));
        assert(lv.take(i + 1).last() == ls@[i as int]@);
        let ghost before = res@;
        match restart_line_exec(&prefix, &ls[i]) {
            Some(r) => {
                res.push(r);
                assert(res@.map_values(|r: ScheduledRestart| restart_view(r)) =~= before.map_values(
                    |r: ScheduledRestart| restart_view(r),
                ).push(restart_view(r)));
            },
            None => {},
        }
        i += 1;
    }
    assert(lv.take(ls.len() as int) =~= lv);
    res
}

proof fn lemma_two_digits_round_trip(n: nat)
    requires
        n < 100,
    ensures
        two_digits(n).len() == 2,
        all_digits(two_digits(n)),
        digits_value(two_digits(n)) == n,
        i32_or_zero(two_digits(n)) == n,
{
    let t = two_digits(n);
    assert(digit_value(digit_char(n / 10)) == n / 10);
    assert(digit_value(digit_char(n % 10)) == n % 10);
    assert(all_digits(t)) by {
        assert(is_digit(t[0]) && is_digit(t[1]));
    }
    lemma_two_digit_value(t);
    assert(t.drop_last().drop_last() =~= Seq::<char>::empty());
    assert(t.drop_last().last() == t[0]);
    assert(digits_value(t.drop_last()) == digit_value(t[0])) by {
        reveal_with_fuel(digits_value, 2);
    }
}

proof fn lemma_digits_round_trip(h: Seq<char>)
    requires
        h.len() == 2,
        all_digits(h),
    ensures
        two_digits(digits_value(h)) == h,
{
    lemma_two_digit_value(h);
    assert(h.drop_last().last() == h[0]);
    assert(digits_value(h.drop_last()) == digit_value(h[0])) by {
        reveal_with_fuel(digits_value, 2);
    }
    let v = digits_value(h);
    assert(is_digit(h[0]) && is_digit(h[1]));
    assert(v / 10 == digit_value(h[0]) && v % 10 == digit_value(h[1]));
    assert(digit_char(digit_value(h[0])) == h[0]);
    assert(digit_char(digit_value(h[1])) == h[1]);
    assert(two_digits(v) =~= h);
}

proof fn lemma_listing_line_split(unit_name: Seq<char>, id: Seq<char>, cal: Seq<char>)
    requires
        is_plain_identifier(unit_name),
        is_plain_identifier(id),
    ensures
        split_once(restart_unit_name(unit_name, id) + "|"@ + cal, "|"@) == Some(
            (restart_unit_name(unit_name, id), cal),
        ),
        strip_prefix(restart_unit_name(unit_name, id), restart_prefix(unit_name)) == Some(id),
{
    let name = restart_unit_name(unit_name, id);
    let line = name + "|"@ + cal;
    reveal_strlit("|");
    reveal_strlit("-");
    reveal_strlit("grimmnetz-restart-");
    assert forall|k: int| 0 <= k < name.len() implies #[trigger] name[k] != '|' by {
        if k >= 18 && k < 18 + unit_name.len() {
            assert(name[k] == unit_name[k - 18]);
        } else if k >= 19 + unit_name.len() {
            assert(name[k] == id[k - 19 - unit_name.len()]);
        }
    }
    assert(occurs_at(line, name.len() as int, "|"@)) by {
        assert(line.subrange(name.len() as int, name.len() + 1int) =~= "|"@);
    }
    assert forall|j: int| 0 <= j < name.len() implies !occurs_at(line, j, "|"@) by {
        assert(line[j] == name[j]);
        if occurs_at(line, j, "|"@) {
            assert(line.subrange(j, j + 1)[0] == line[j]);
        }
    }
    lemma_find_is(line, "|"@, name.len() as int);
    assert(line.take(name.len() as int) =~= name);
    assert(line.skip(name.len() + 1int) =~= cal);
    assert(name.take(restart_prefix(unit_name).len() as int) =~= restart_prefix(unit_name));
    assert(name.skip(restart_prefix(unit_name).len() as int) =~= id);
}

proof fn lemma_fifteen_minutes_back(hv: int, mv: int, s1: int)
    requires
        0 <= hv < 24,
        0 <= mv < 60,
        s1 == (hv * 60 + mv - 15) % 1440,
    ensures
        0 <= s1 < 1440,
        ((s1 / 60) * 60 + s1 % 60 + 15) % 1440 == hv * 60 + mv,
{
    let t = hv * 60 + mv;
    if t >= 15 {
        assert(s1 == t - 15);
    } else {
        assert(s1 == t - 15 + 1440);
    }
}

proof fn lemma_calendar_slices(h: Seq<char>, m: Seq<char>)
    requires
        h.len() == 2,
        m.len() == 2,
        all_digits(h),
        all_digits(m),
        digits_value(h) < 24,
        digits_value(m) < 60,
    ensures
        ({
            let cal = calendar_time(h, m);
            &&& byte_slice(cal, 0, 2) matches Some(a) && byte_slice(cal, 3, 5) matches Some(b)
                && shifted_clock(a, b, 15) == h + ":"@ + m
        }),
{
    reveal_strlit(":");
    reveal_strlit(":00");
    let cal = calendar_time(h, m);
    let hv = digits_value(h);
    let mv = digits_value(m);
    lemma_two_digit_value(h);
    lemma_two_digit_value(m);
    let s1 = shifted_minutes(h, m, -15);
    lemma_fifteen_minutes_back(hv as int, mv as int, s1);
    let a = (s1 / 60) as nat;
    let b = (s1 % 60) as nat;
    lemma_two_digits_round_trip(a);
    lemma_two_digits_round_trip(b);
    let wh = two_digits(a);
    let wm = two_digits(b);
    assert(cal =~= wh + ":"@ + wm + ":00"@);
    assert forall|k: int| 0 <= k < 5 implies (#[trigger] cal[k] as u32) < 0x80 by {
        if k < 2 {
            assert(cal[k] == wh[k]);
            assert(is_digit(wh[k]));
        } else if k == 2 {
            assert(cal[k] == ':');
        } else {
            assert(cal[k] == wm[k - 3]);
            assert(is_digit(wm[k - 3]));
        }
    }
    lemma_char_index_ascii(cal, 0);
    lemma_char_index_ascii(cal, 2);
    lemma_char_index_ascii(cal, 3);
    lemma_char_index_ascii(cal, 5);
    assert(cal.subrange(0, 2) =~= wh);
    assert(cal.subrange(3, 5) =~= wm);
    let s2 = shifted_minutes(wh, wm, 15);
    assert(s2 == hv * 60 + mv);
    assert(s2 / 60 == hv && s2 % 60 == mv);
    lemma_digits_round_trip(h);
    lemma_digits_round_trip(m);
}

/// A daily restart at a real clock time (hours below 24, minutes below 60) is listed back with
/// the id and the time it was added with: the timer fires at `calendar_time`, fifteen minutes
/// earlier, and the listing adds the fifteen minutes again.
pub proof fn lemma_restart_listing_round_trip(unit_name: Seq<char>, id: Seq<char>, time: Seq<char>)
    requires
        is_plain_identifier(unit_name),
        is_plain_identifier(id),
        clock_parts(time) is Some,
        digits_value(clock_hour(time)) < 24,
        digits_value(clock_minute(time)) < 60,
    ensures
        restart_entry(
            unit_name,
            restart_unit_name(unit_name, id) + "|"@ + calendar_time(
                clock_hour(time),
                clock_minute(time),
            ),
        ) == Some((id, time)),
{
    let h = clock_hour(time);
    let m = clock_minute(time);
    lemma_listing_line_split(unit_name, id, calendar_time(h, m));
    lemma_calendar_slices(h, m);
    reveal_strlit(":");
    let found = find(time, ":"@)->0;
    assert(time.take(found) == h && time.skip(found + 1) == m);
    assert(time[found] == ':') by {
        assert(occurs_at(time, found, ":"@));
        assert(time.subrange(found, found + 1)[0] == time[found]);
    }
    assert(time =~= h + ":"@ + m);
}

/// The delay of an announced restart or stop, in seconds: at most three hours.
pub open spec fn announced_delay(delay_minutes: nat) -> nat {
    (if delay_minutes < 180 {
        delay_minutes
    } else {
        180
    }) * 60
}

/// The script of a restart or stop announced by hand: `message` at once, then the countdown
/// over `delay_minutes` (at most 180), then the action. Any action but `restart` and `stop`
/// is refused.
pub fn announced_action_script(
    instance: &Option<InstanceRecord>,
    template: &Option<GameTemplate>,
    unit_name: &str,
    message: &str,
    delay_minutes: u32,
    action: &str,
) -> (res: Result<String, String>)
    ensures
        action@ == "restart"@ || action@ == "stop"@ ==> (res matches Ok(s) && s@
            == countdown_script_text(
            *instance,
            *template,
            unit_name@,
            action@,
            Some(message@),
            announced_delay(delay_minutes as nat),
        )),
        !(action@ == "restart"@ || action@ == "stop"@) ==> (res matches Err(e) && e@
            == "Ungültige Aktion"@),
{
    let a = chars_of(action);
    if !eq_exec(&a, &lit("restart")) && !eq_exec(&a, &lit("stop")) {
        return Err(String::from_str("Ungültige Aktion"));
    }
    let minutes: u32 = if delay_minutes < 180 {
        delay_minutes
    } else {
        180
    };
    let script = build_countdown_script(
        instance,
        template,
        unit_name,
        action,
        Some(message),
        minutes * 60,
    );
    Ok(script)
}

/// The calendar time holds digits and colons only: `HH:MM:00`.
proof fn lemma_calendar_chars(h: Seq<char>, m: Seq<char>)
    ensures
        calendar_time(h, m).len() == 8,
        forall|i: int| 0 <= i < 8 ==> is_digit(#[trigger] calendar_time(h, m)[i]) || calendar_time(h, m)[i] == ':',
{
    reveal_strlit(":");
    reveal_strlit(":00");
    let s1 = shifted_minutes(h, m, -15);
    assert(0 <= s1 < 1440);
    let a = (s1 / 60) as nat;
    let b = (s1 % 60) as nat;
    lemma_two_digits_round_trip(a);
    lemma_two_digits_round_trip(b);
    let cal = calendar_time(h, m);
    assert(cal =~= two_digits(a) + ":"@ + two_digits(b) + ":00"@);
    assert forall|i: int| 0 <= i < 8 implies is_digit(#[trigger] cal[i]) || cal[i] == ':' by {
        if i < 2 {
            assert(cal[i] == two_digits(a)[i]);
        } else if 3 <= i < 5 {
            assert(cal[i] == two_digits(b)[i - 3]);
        } else if i >= 6 {
            assert(cal[i] == '0');
        }
    }
}

/// The daily restart's timer file is what the listing reads: it is written as `<name>.timer`
/// with a name that starts with the unit's restart prefix (so the listing's glob finds it),
/// and it holds `OnCalendar=*-*-* ` exactly once, followed by the calendar time (digits and
/// colons only) and a line break: what the listing's `grep -oP 'OnCalendar=\*-\*-\* \K[0-9:]+'`
/// prints. The line the listing then echoes, `<name>|<calendar time>`, reads back as the
/// restart's id and time.
pub proof fn lemma_restart_timer_listed(unit_name: Seq<char>, id: Seq<char>, time: Seq<char>)
    requires
        is_plain_identifier(unit_name),
        is_plain_identifier(id),
        clock_parts(time) is Some,
        digits_value(clock_hour(time)) < 24,
        digits_value(clock_minute(time)) < 60,
    ensures
        ({
            let cal = calendar_time(clock_hour(time), clock_minute(time));
            let t = restart_timer_text(unit_name, cal);
            let pat = "OnCalendar=*-*-* "@;
            &&& starts_with(restart_unit_name(unit_name, id), restart_prefix(unit_name))
            &&& find(t, pat) is Some
            &&& forall|j: int| occurs_at(t, j, pat) ==> j == find(t, pat)->0
            &&& starts_with(t.skip(find(t, pat)->0 + 17), cal + "\n"@)
            &&& forall|i: int| 0 <= i < cal.len() ==> is_digit(#[trigger] cal[i]) || cal[i] == ':'
            &&& restart_entry(unit_name, restart_unit_name(unit_name, id) + "|"@ + cal) == Some((id, time))
        }),
{
    let h = clock_hour(time);
    let m = clock_minute(time);
    let cal = calendar_time(h, m);
    lemma_calendar_chars(h, m);
    lemma_restart_listing_round_trip(unit_name, id, time);
    let pat = "OnCalendar=*-*-* "@;
    let a = "[Unit]\nDescription=Timer fuer geplanten Neustart von "@;
    let b = "\n\n[Timer]\nOnCalendar=*-*-* "@;
    let c = "\nPersistent=false\n\n[Install]\nWantedBy=timers.target\n"@;
    reveal_strlit("OnCalendar=*-*-* ");
    reveal_strlit("[Unit]\nDescription=Timer fuer geplanten Neustart von ");
    reveal_strlit("\n\n[Timer]\nOnCalendar=*-*-* ");
    reveal_strlit("\nPersistent=false\n\n[Install]\nWantedBy=timers.target\n");
    reveal_strlit("\n");
    reveal_strlit("grimmnetz-restart-");
    reveal_strlit("-");
    let t = restart_timer_text(unit_name, cal);
    assert(t == a + unit_name + b + cal + c);
    let n: int = a.len() + unit_name.len() as int;
    let k: int = n + 10;
    // Where `*` stands in the timer text.
    assert forall|x: int| 0 <= x < t.len() && t[x] == '*' implies x == k + 11 || x == k + 13 || x == k + 15 by {
        if x < a.len() {
            assert(t[x] == a[x]);
        } else if x < n {
            assert(t[x] == unit_name[x - a.len()]);
            assert(is_ascii_alnum(unit_name[x - a.len()]) || unit_name[x - a.len()] == '-');
        } else if x < n + 27 {
            assert(t[x] == b[x - n]);
        } else if x < n + 27 + 8 {
            assert(t[x] == cal[x - n - 27]);
        } else {
            assert(t[x] == c[x - n - 35]);
        }
    }
    assert(t.subrange(k, k + 17) =~= pat) by {
        assert forall|i: int| 0 <= i < 17 implies #[trigger] t.subrange(k, k + 17)[i] == pat[i] by {
            assert(t[k + i] == b[10 + i]);
        }
    }
    assert forall|j: int| occurs_at(t, j, pat) implies j == k by {
        assert(t.subrange(j, j + 17)[11] == t[j + 11]);
        assert(t.subrange(j, j + 17)[13] == t[j + 13]);
        assert(t.subrange(j, j + 17)[15] == t[j + 15]);
    }
    assert(is_first_occurrence(t, pat, k));
    lemma_find_is(t, pat, k);
    assert(t.skip(k + 17).subrange(0, 9) =~= cal + "\n"@) by {
        assert forall|i: int| 0 <= i < 9 implies #[trigger] t.skip(k + 17).subrange(0, 9)[i] == (cal + "\n"@)[i] by {
            if i < 8 {
                assert(t[k + 17 + i] == cal[i]);
            } else {
                assert(t[k + 17 + i] == c[0]);
            }
        }
    }
    assert(restart_unit_name(unit_name, id).subrange(0, restart_prefix(unit_name).len() as int) =~= restart_prefix(unit_name));
}

} // verus!
