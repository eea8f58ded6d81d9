//! In-game announcements before a restart or stop: the console and RCON commands that
//! broadcast a message, the countdown schedule, and the daily restart timers.
use vstd::prelude::*;

use crate::games::{single_quoted, shell_single_quote, GameTemplate};
use crate::paths::console_fifo_path;
use crate::records::InstanceRecord;
use crate::text::{
    all_digits, chars_of, digit_char, digit_value, digits_value, decimal, decimal_exec, eq_exec, join,
    ends_with, join_exec, lemma_split_join_commands, lit, contains, parse_signed, push_all, replace, replace_exec, split_on,
    starts_with, strip_prefix, string_of, two_digits, two_digits_exec,
};

verus! {

/// `s.parse::<i32>().unwrap_or(0)`.
pub open spec fn i32_or_zero(s: Seq<char>) -> int {
    match parse_signed(s, i32::MAX as nat) {
        Some(v) => v,
        None => 0,
    }
}

fn i32_or_zero_exec(s: &str) -> (res: i32)
    ensures
        res == i32_or_zero(s@),
{
    match crate::text::parse_i64_exec(&chars_of(s)) {
        Some(v) => {
            if v >= i32::MIN as i64 && v <= i32::MAX as i64 {
                v as i32
            } else {
                0
            }
        },
        None => 0,
    }
}

/// The minutes since midnight of `hh:mm` moved by `delta` minutes, wrapped around midnight.
pub open spec fn shifted_minutes(hh: Seq<char>, mm: Seq<char>, delta: int) -> int {
    (i32_or_zero(hh) * 60 + i32_or_zero(mm) + delta) % 1440
}

/// Shifts an `HH:MM` time by `delta_minutes` (may be negative), wrapping around midnight; both
/// parts come back zero-padded to two digits. Unparsable parts count as 0. The arithmetic is
/// that of `i32`: its intermediate values must fit.
pub fn shift_time(hh: &str, mm: &str, delta_minutes: i32) -> (res: (String, String))
    requires
        i32::MIN <= i32_or_zero(hh@) * 60 <= i32::MAX,
        i32::MIN <= i32_or_zero(hh@) * 60 + i32_or_zero(mm@) <= i32::MAX,
        i32::MIN <= i32_or_zero(hh@) * 60 + i32_or_zero(mm@) + delta_minutes <= i32::MAX,
    ensures
        res.0@ == two_digits((shifted_minutes(hh@, mm@, delta_minutes as int) / 60) as nat),
        res.1@ == two_digits((shifted_minutes(hh@, mm@, delta_minutes as int) % 60) as nat),
{
    let h = i32_or_zero_exec(hh);
    let m = i32_or_zero_exec(mm);
    let total = h * 60 + m;
    let t = total + delta_minutes;
    // Lift `t` by a whole number of days so that the remainder is taken of a non-negative value.
    let lifted: u64 = (t as i64 + 2_160_000_000i64) as u64;
    let shifted: u64 = lifted % 1440;
    proof {
        vstd::arithmetic::div_mod::lemma_mod_multiples_vanish(1_500_000, t as int, 1440);
        assert(lifted as int == 1440 * 1_500_000 + t as int);
    }
    assert(shifted as int == (t as int) % 1440);
    let hours = (shifted / 60) as u32;
    let minutes = (shifted % 60) as u32;
    (string_of(&two_digits_exec(hours)), string_of(&two_digits_exec(minutes)))
}

/// A duration in German: `N Sek`, `N Min`, or `N Min M Sek`.
pub open spec fn duration_text(seconds: nat) -> Seq<char> {
    if seconds < 60 {
        decimal(seconds) + " Sek"@
    } else if seconds % 60 == 0 {
        decimal(seconds / 60) + " Min"@
    } else {
        decimal(seconds / 60) + " Min "@ + decimal(seconds % 60) + " Sek"@
    }
}

pub fn format_duration(seconds: u32) -> (res: String)
    ensures
        res@ == duration_text(seconds as nat),
{
    let mut s: Vec<char>;
    if seconds < 60 {
        s = decimal_exec(seconds as u64);
        push_all(&mut s, &lit(" Sek"));
    } else if seconds % 60 == 0 {
        s = decimal_exec((seconds / 60) as u64);
        push_all(&mut s, &lit(" Min"));
    } else {
        s = decimal_exec((seconds / 60) as u64);
        push_all(&mut s, &lit(" Min "));
        push_all(&mut s, &decimal_exec((seconds % 60) as u64));
        push_all(&mut s, &lit(" Sek"));
    }
    string_of(&s)
}

/// The fixed announcement marks, in seconds before the action, with their labels: coarse
/// marks down to one minute, a 30 s mark, then every second for the last ten.
pub open spec fn marks() -> Seq<(nat, Seq<char>)> {
    seq![
        (900, "15 Min"@),
        (600, "10 Min"@),
        (300, "5 Min"@),
        (240, "4 Min"@),
        (180, "3 Min"@),
        (120, "2 Min"@),
        (60, "1 Min"@),
        (30, "30 Sek"@),
    ] + Seq::new(10, |i: int| ((10 - i) as nat, decimal((10 - i) as nat) + " Sek"@))
}

pub open spec fn marks_view(v: Seq<(u32, String)>) -> Seq<(nat, Seq<char>)> {
    v.map_values(|p: (u32, String)| (p.0 as nat, p.1@))
}

pub fn countdown_marks() -> (res: Vec<(u32, String)>)
    ensures
        marks_view(res@) == marks(),
{
    let mut v: Vec<(u32, String)> = vec![
        (900, String::from_str("15 Min")),
        (600, String::from_str("10 Min")),
        (300, String::from_str("5 Min")),
        (240, String::from_str("4 Min")),
        (180, String::from_str("3 Min")),
        (120, String::from_str("2 Min")),
        (60, String::from_str("1 Min")),
        (30, String::from_str("30 Sek")),
    ];
    let ghost head = marks_view(v@);
    let ghost tail = Seq::new(10, |i: int| ((10 - i) as nat, decimal((10 - i) as nat) + " Sek"@));
    let mut s: u32 = 10;
    while s >= 1
        invariant
            0 <= s <= 10,
            head.len() == 8,
            tail == Seq::new(10, |i: int| ((10 - i) as nat, decimal((10 - i) as nat) + " Sek"@)),
            marks_view(v@) == head + tail.take(10 - s),
        decreases s,
    {
        let mut label = decimal_exec(s as u64);
        push_all(&mut label, &lit(" Sek"));
        let ghost before = marks_view(v@);
        let ghost item = (s as nat, label@);
        v.push((s, string_of(&label)));
        assert(marks_view(v@) =~= before.push(item));
        assert(tail.take(10 - s + 1) =~= tail.take(10 - s).push(item));
        s -= 1;
    }
    assert(tail.take(10) =~= tail);
    assert(head =~= seq![
        (900nat, "15 Min"@),
        (600nat, "10 Min"@),
        (300nat, "5 Min"@),
        (240nat, "4 Min"@),
        (180nat, "3 Min"@),
        (120nat, "2 Min"@),
        (60nat, "1 Min"@),
        (30nat, "30 Sek"@),
    ]);
    v
}

/// What `console_say_command` produces.
pub open spec fn say_command_text(fifo: Seq<char>, say_format: Seq<char>, message: Seq<char>) -> Seq<char> {
    let line = replace(say_format, "{message}"@, message);
    let echo_cmd = "echo "@ + single_quoted(line) + " > "@ + fifo;
    "timeout 2 sudo -u gameserver bash -c "@ + single_quoted(echo_cmd) + " 2>/dev/null"@
}

/// A single best-effort write of `say_format` (with `{message}` substituted) into the console
/// FIFO, as `gameserver`; `timeout` keeps it from hanging when no game reads the FIFO.
pub fn console_say_command(fifo: &str, say_format: &str, message: &str) -> (res: String)
    ensures
        res@ == say_command_text(fifo@, say_format@, message@),
{
    let p = lit("{message}");
    proof {
        reveal_strlit("{message}");
    }
    let line = string_of(&replace_exec(&chars_of(say_format), &p, &chars_of(message)));
    let mut echo_cmd = lit("echo ");
    push_all(&mut echo_cmd, &chars_of(shell_single_quote(line.as_str()).as_str()));
    push_all(&mut echo_cmd, &lit(" > "));
    push_all(&mut echo_cmd, &chars_of(fifo));
    let e = string_of(&echo_cmd);
    let mut c = lit("timeout 2 sudo -u gameserver bash -c ");
    push_all(&mut c, &chars_of(shell_single_quote(e.as_str()).as_str()));
    push_all(&mut c, &lit(" 2>/dev/null"));
    string_of(&c)
}

/// The Source-RCON client run server-side with `python3 -c`.
pub open spec fn rcon_script() -> Seq<char> {
    "\nimport socket,struct,sys\ndef pkt(i,t,b):\n    body=b.encode()+b'\\x00\\x00'\n    data=struct.pack('<ii',i,t)+body\n    return struct.pack('<i',len(data))+data\nport=int(sys.argv[1])\npw=open(sys.argv[2]).read().strip()\ncmd=sys.argv[3]\ns=socket.create_connection(('127.0.0.1',port),5)\ns.sendall(pkt(1,3,pw))\nauth=s.recv(4096)\nif len(auth)<8 or struct.unpack('<i',auth[4:8])[0]==-1:\n    sys.exit(1)\ns.sendall(pkt(2,2,cmd))\ns.recv(4096)\n"@
}

/// What `rcon_command` produces.
pub open spec fn rcon_command_text(port: nat, password_file: Seq<char>, command: Seq<char>) -> Seq<char> {
    let py_cmd = "python3 -c "@ + single_quoted(rcon_script()) + " "@ + decimal(port) + " "@
        + single_quoted(password_file) + " "@ + single_quoted(command);
    "timeout 5 sudo -u gameserver bash -c "@ + single_quoted(py_cmd) + " 2>/dev/null"@
}

/// Runs `command` over RCON on 127.0.0.1:`port`, reading the password from `password_file` as
/// `gameserver`.
pub fn rcon_command(port: u16, password_file: &str, command: &str) -> (res: String)
    ensures
        res@ == rcon_command_text(port as nat, password_file@, command@),
{
    let script = String::from_str(
        "\nimport socket,struct,sys\ndef pkt(i,t,b):\n    body=b.encode()+b'\\x00\\x00'\n    data=struct.pack('<ii',i,t)+body\n    return struct.pack('<i',len(data))+data\nport=int(sys.argv[1])\npw=open(sys.argv[2]).read().strip()\ncmd=sys.argv[3]\ns=socket.create_connection(('127.0.0.1',port),5)\ns.sendall(pkt(1,3,pw))\nauth=s.recv(4096)\nif len(auth)<8 or struct.unpack('<i',auth[4:8])[0]==-1:\n    sys.exit(1)\ns.sendall(pkt(2,2,cmd))\ns.recv(4096)\n",
    );
    let mut py = lit("python3 -c ");
    push_all(&mut py, &chars_of(shell_single_quote(script.as_str()).as_str()));
    push_all(&mut py, &lit(" "));
    push_all(&mut py, &decimal_exec(port as u64));
    push_all(&mut py, &lit(" "));
    push_all(&mut py, &chars_of(shell_single_quote(password_file).as_str()));
    push_all(&mut py, &lit(" "));
    push_all(&mut py, &chars_of(shell_single_quote(command).as_str()));
    let p = string_of(&py);
    let mut c = lit("timeout 5 sudo -u gameserver bash -c ");
    push_all(&mut c, &chars_of(shell_single_quote(p.as_str()).as_str()));
    push_all(&mut c, &lit(" 2>/dev/null"));
    string_of(&c)
}

/// The command that announces `message` in the game running as `unit_name`: over RCON when
/// the instance and its template are known and the template declares RCON, through the
/// console FIFO otherwise (with the template's say format, or `say {message}`).
pub open spec fn broadcast_text(
    instance: Option<InstanceRecord>,
    template: Option<GameTemplate>,
    unit_name: Seq<char>,
    message: Seq<char>,
) -> Seq<char> {
    if instance is Some && template is Some && template->0.rcon is Some {
        let r = template->0.rcon->0;
        rcon_command_text(
            r.port as nat,
            instance->0.install_path@ + "/"@ + r.password_file@,
            replace(r.broadcast_command@, "{message}"@, message),
        )
    } else {
        let fifo = match strip_prefix(unit_name, "grimmnetz-"@) {
            Some(id) => "/run/grimmnetz-"@ + id + ".console"@,
            None => seq![],
        };
        let say = match template {
            Some(t) => t.console_say_format@,
            None => "say {message}"@,
        };
        say_command_text(fifo, say, message)
    }
}

/// Builds the shell command that announces `message` inside the running game; `instance` and
/// `template` are what the app knows of the unit (the instance record with that unit, and its
/// game's template).
pub fn build_broadcast_command(
    instance: &Option<InstanceRecord>,
    template: &Option<GameTemplate>,
    unit_name: &str,
    message: &str,
) -> (res: String)
    ensures
        res@ == broadcast_text(*instance, *template, unit_name@, message@),
{
    let p = lit("{message}");
    proof {
        reveal_strlit("{message}");
    }
    if let (Some(inst), Some(tpl)) = (instance, template) {
        if let Some(rcon) = &tpl.rcon {
            let mut path = chars_of(inst.install_path.as_str());
            push_all(&mut path, &lit("/"));
            push_all(&mut path, &chars_of(rcon.password_file.as_str()));
            let cmd = replace_exec(&chars_of(rcon.broadcast_command.as_str()), &p, &chars_of(message));
            return rcon_command(rcon.port, string_of(&path).as_str(), string_of(&cmd).as_str());
        }
    }
    let fifo = match console_fifo_path(unit_name) {
        Some(f) => f,
        None => String::new(),
    };
    let say = match template {
        Some(t) => t.console_say_format.clone(),
        None => String::from_str("say {message}"),
    };
    console_say_command(fifo.as_str(), say.as_str(), message)
}

/// The RCON command that forces a save before the action, when the game declares one.
pub open spec fn save_text(instance: Option<InstanceRecord>, template: Option<GameTemplate>) -> Option<
    Seq<char>,
> {
    if instance is Some && template is Some && template->0.rcon is Some
        && template->0.rcon->0.save_command is Some {
        let r = template->0.rcon->0;
        Some(
            rcon_command_text(
                r.port as nat,
                instance->0.install_path@ + "/"@ + r.password_file@,
                r.save_command->0@,
            ),
        )
    } else {
        None
    }
}

pub fn build_save_command(instance: &Option<InstanceRecord>, template: &Option<GameTemplate>) -> (res:
    Option<String>)
    ensures
        match save_text(*instance, *template) {
            Some(c) => res matches Some(x) && x@ == c,
            None => res is None,
        },
{
    if let (Some(inst), Some(tpl)) = (instance, template) {
        if let Some(rcon) = &tpl.rcon {
            if let Some(save) = &rcon.save_command {
                let mut path = chars_of(inst.install_path.as_str());
                push_all(&mut path, &lit("/"));
                push_all(&mut path, &chars_of(rcon.password_file.as_str()));
                return Some(rcon_command(rcon.port, string_of(&path).as_str(), save.as_str()));
            }
        }
    }
    None
}


/// One step of an announced restart or stop, before the forced save and the action itself.
pub enum ScriptStep {
    /// Wait this many seconds.
    Sleep(nat),
    /// Announce `message`; the action follows after `left` more seconds of sleeping.
    Say(nat, Seq<char>),
}

/// `Neustart` for a restart, `Stop` for anything else.
pub open spec fn action_word(action: Seq<char>) -> Seq<char> {
    if action == "restart"@ {
        "Neustart"@
    } else {
        "Stop"@
    }
}

pub open spec fn announcement(word: Seq<char>, label: Seq<char>) -> Seq<char> {
    "Server "@ + word + " in "@ + label
}

/// Whether the countdown mark `mark` is announced: strictly inside `total` after a custom
/// message (which already announced `total` itself), up to and including `total` otherwise.
pub open spec fn mark_within(mark: nat, total: nat, strict: bool) -> bool {
    if strict {
        mark < total
    } else {
        mark <= total
    }
}

/// The steps for the first `k` countdown marks, with the seconds left before the action after
/// the last announcement made (`total` if none was).
pub open spec fn mark_fold(k: nat, total: nat, strict: bool, word: Seq<char>) -> (Seq<ScriptStep>, nat)
    decreases k,
{
    if k == 0 || k > marks().len() {
        (seq![], total)
    } else {
        let (s, prev) = mark_fold((k - 1) as nat, total, strict, word);
        let m = marks()[k - 1];
        if !mark_within(m.0, total, strict) {
            (s, prev)
        } else {
            let wait: nat = if prev > m.0 {
                (prev - m.0) as nat
            } else {
                0
            };
            let s2 = if wait > 0 {
                s.push(ScriptStep::Sleep(wait))
            } else {
                s
            };
            (s2.push(ScriptStep::Say(m.0, announcement(word, m.1))), m.0)
        }
    }
}

/// The countdown: the custom message and the total time when there is one, then every mark
/// that fits, with the sleeps between them, and a final sleep down to zero.
pub open spec fn countdown_head(custom: Option<Seq<char>>, word: Seq<char>, total: nat) -> Seq<
    ScriptStep,
> {
    match custom {
        Some(msg) => seq![
            ScriptStep::Say(total, msg),
            ScriptStep::Say(total, announcement(word, duration_text(total))),
        ],
        None => seq![],
    }
}

pub open spec fn final_sleep(prev: nat) -> Seq<ScriptStep> {
    if prev > 0 {
        seq![ScriptStep::Sleep(prev)]
    } else {
        seq![]
    }
}

/// The countdown: the custom message and the total time when there is one, then every mark
/// that fits, with the sleeps between them, and a final sleep down to zero.
pub open spec fn countdown_steps(custom: Option<Seq<char>>, word: Seq<char>, total: nat) -> Seq<
    ScriptStep,
> {
    let (s, prev) = mark_fold(marks().len(), total, custom is Some, word);
    countdown_head(custom, word, total) + s + final_sleep(prev)
}

pub open spec fn sleep_text(n: nat) -> Seq<char> {
    "sleep "@ + decimal(n)
}

pub open spec fn step_text(
    instance: Option<InstanceRecord>,
    template: Option<GameTemplate>,
    unit_name: Seq<char>,
    st: ScriptStep,
) -> Seq<char> {
    match st {
        ScriptStep::Sleep(n) => sleep_text(n),
        ScriptStep::Say(_, msg) => broadcast_text(instance, template, unit_name, msg),
    }
}

pub open spec fn step_texts(
    instance: Option<InstanceRecord>,
    template: Option<GameTemplate>,
    unit_name: Seq<char>,
    steps: Seq<ScriptStep>,
) -> Seq<Seq<char>> {
    steps.map_values(|st: ScriptStep| step_text(instance, template, unit_name, st))
}

pub open spec fn opt_view(o: Option<&str>) -> Option<Seq<char>> {
    match o {
        Some(m) => Some(m@),
        None => None,
    }
}

/// The whole script: the countdown, the forced save with two seconds to finish it (when the
/// game has one), and the `systemctl` action, joined with ` ; `.
pub open spec fn countdown_script_text(
    instance: Option<InstanceRecord>,
    template: Option<GameTemplate>,
    unit_name: Seq<char>,
    action: Seq<char>,
    custom: Option<Seq<char>>,
    total: nat,
) -> Seq<char> {
    let body = step_texts(
        instance,
        template,
        unit_name,
        countdown_steps(custom, action_word(action), total),
    );
    let save = match save_text(instance, template) {
        Some(c) => seq![c, "sleep 2"@],
        None => seq![],
    };
    join(body + save + seq!["sudo systemctl "@ + action + " "@ + unit_name], " ; "@)
}

proof fn lemma_step_texts_push(
    instance: Option<InstanceRecord>,
    template: Option<GameTemplate>,
    unit_name: Seq<char>,
    s: Seq<ScriptStep>,
    x: ScriptStep,
)
    ensures
        step_texts(instance, template, unit_name, s.push(x)) == step_texts(
            instance,
            template,
            unit_name,
            s,
        ).push(step_text(instance, template, unit_name, x)),
{
    assert(step_texts(instance, template, unit_name, s.push(x)) =~= step_texts(
        instance,
        template,
        unit_name,
        s,
    ).push(step_text(instance, template, unit_name, x)));
}

fn sleep_exec(n: u32) -> (res: Vec<char>)
    ensures
        res@ == sleep_text(n as nat),
{
    let mut v = lit("sleep ");
    push_all(&mut v, &decimal_exec(n as u64));
    v
}

fn announcement_exec(word: &Vec<char>, label: &str) -> (res: Vec<char>)
    ensures
        res@ == announcement(word@, label@),
{
    let mut t = lit("Server ");
    push_all(&mut t, word);
    push_all(&mut t, &lit(" in "));
    push_all(&mut t, &chars_of(label));
    t
}

/// The shell script of an announced restart or stop of `unit_name`: the optional custom
/// message, every countdown mark that fits in `total_seconds` with the sleeps between them,
/// the forced save when the game has one, then `sudo systemctl <action> <unit_name>`.
pub fn build_countdown_script(
    instance: &Option<InstanceRecord>,
    template: &Option<GameTemplate>,
    unit_name: &str,
    action: &str,
    custom_message: Option<&str>,
    total_seconds: u32,
) -> (res: String)
    ensures
        res@ == countdown_script_text(
            *instance,
            *template,
            unit_name@,
            action@,
            opt_view(custom_message),
            total_seconds as nat,
        ),
{
    let ghost ctx_i = *instance;
    let ghost ctx_t = *template;
    let ghost unit = unit_name@;
    let word = if eq_exec(&chars_of(action), &lit("restart")) {
        lit("Neustart")
    } else {
        lit("Stop")
    };
    proof {
        reveal_strlit("restart");
        reveal_strlit("Neustart");
        reveal_strlit("Stop");
    }
    assert(word@ == action_word(action@));
    let strict = custom_message.is_some();
    let ghost custom = opt_view(custom_message);
    let ghost head = countdown_head(custom, word@, total_seconds as nat);
    let mut parts: Vec<Vec<char>> = Vec::new();
    if let Some(msg) = custom_message {
        let first = build_broadcast_command(instance, template, unit_name, msg);
        parts.push(chars_of(first.as_str()));
        let d = format_duration(total_seconds);
        let t = string_of(&announcement_exec(&word, d.as_str()));
        let second = build_broadcast_command(instance, template, unit_name, t.as_str());
        parts.push(chars_of(second.as_str()));
    }
    assert(parts@.map_values(|v: Vec<char>| v@) =~= step_texts(ctx_i, ctx_t, unit, head));
    let schedule = countdown_marks();
    assert(marks().len() == 18);
    assert(marks_view(schedule@).len() == schedule@.len());
    let mut prev: u32 = total_seconds;
    let mut k: usize = 0;
    while k < schedule.len()
        invariant
            k <= schedule.len(),
            schedule.len() == 18,
            marks_view(schedule@) == marks(),
            strict == custom is Some,
            ctx_i == *instance,
            ctx_t == *template,
            unit == unit_name@,
            prev as nat == mark_fold(k as nat, total_seconds as nat, strict, word@).1,
            parts@.map_values(|v: Vec<char>| v@) == step_texts(
                ctx_i,
                ctx_t,
                unit,
                head + mark_fold(k as nat, total_seconds as nat, strict, word@).0,
            ),
        decreases schedule.len() - k,
    {
        let mark_secs = schedule[k].0;
        let ghost m = marks()[k as int];
        assert(m.0 == mark_secs as nat && m.1 == schedule@[k as int].1@);
        let ghost before = head + mark_fold(k as nat, total_seconds as nat, strict, word@).0;
        let within = if strict {
            mark_secs < total_seconds
        } else {
            mark_secs <= total_seconds
        };
        if within {
            let wait: u32 = if prev > mark_secs {
                prev - mark_secs
            } else {
                0
            };
            let ghost mid = if wait > 0 {
                before.push(ScriptStep::Sleep(wait as nat))
            } else {
                before
            };
            if wait > 0 {
                proof {
                    lemma_step_texts_push(ctx_i, ctx_t, unit, before, ScriptStep::Sleep(wait as nat));
                }
                let ghost pv = parts@;
                parts.push(sleep_exec(wait));
                assert(parts@.map_values(|v: Vec<char>| v@) =~= pv.map_values(|v: Vec<char>| v@).push(
                    sleep_text(wait as nat),
                ));
            }
            let t = string_of(&announcement_exec(&word, schedule[k].1.as_str()));
            let c = build_broadcast_command(instance, template, unit_name, t.as_str());
            let ghost say = ScriptStep::Say(m.0, announcement(word@, m.1));
            proof {
                lemma_step_texts_push(ctx_i, ctx_t, unit, mid, say);
            }
            let ghost pv = parts@;
            parts.push(chars_of(c.as_str()));
            assert(parts@.map_values(|v: Vec<char>| v@) =~= pv.map_values(|v: Vec<char>| v@).push(
                c@,
            ));
            assert(mid.push(say) =~= head + mark_fold((k + 1) as nat, total_seconds as nat, strict, word@).0);
            prev = mark_secs;
        }
        k += 1;
    }
    let ghost fold = mark_fold(18, total_seconds as nat, strict, word@);
    let ghost steps = countdown_steps(custom, word@, total_seconds as nat);
    if prev > 0 {
        proof {
            lemma_step_texts_push(ctx_i, ctx_t, unit, head + fold.0, ScriptStep::Sleep(prev as nat));
        }
        let ghost pv = parts@;
        parts.push(sleep_exec(prev));
        assert(parts@.map_values(|v: Vec<char>| v@) =~= pv.map_values(|v: Vec<char>| v@).push(
            sleep_text(prev as nat),
        ));
        assert((head + fold.0).push(ScriptStep::Sleep(prev as nat)) =~= steps);
    } else {
        assert(head + fold.0 =~= steps);
    }
    let ghost body = parts@.map_values(|v: Vec<char>| v@);
    assert(body == step_texts(ctx_i, ctx_t, unit, steps));
    match build_save_command(instance, template) {
        Some(save) => {
            parts.push(chars_of(save.as_str()));
            parts.push(lit("sleep 2"));
        },
        None => {},
    }
    let mut last = lit("sudo systemctl ");
    push_all(&mut last, &chars_of(action));
    push_all(&mut last, &lit(" "));
    push_all(&mut last, &chars_of(unit_name));
    let ghost pv = parts@;
    parts.push(last);
    proof {
        reveal_strlit("sleep 2");
        let save = match save_text(*instance, *template) {
            Some(c) => seq![c, "sleep 2"@],
            None => seq![],
        };
        assert(parts@.map_values(|v: Vec<char>| v@) =~= body + save + seq![
            "sudo systemctl "@ + action@ + " "@ + unit_name@,
        ]);
    }
    string_of(&join_exec(&parts, &lit(" ; ")))
}


/// The seconds slept in `steps`.
pub open spec fn sleep_total(steps: Seq<ScriptStep>) -> nat
    decreases steps.len(),
{
    if steps.len() == 0 {
        0
    } else {
        sleep_total(steps.drop_last()) + match steps.last() {
            ScriptStep::Sleep(n) => n,
            ScriptStep::Say(_, _) => 0,
        }
    }
}

proof fn lemma_sleep_total_append(a: Seq<ScriptStep>, b: Seq<ScriptStep>)
    ensures
        sleep_total(a + b) == sleep_total(a) + sleep_total(b),
    decreases b.len(),
{
    if b.len() > 0 {
        lemma_sleep_total_append(a, b.drop_last());
        assert((a + b).drop_last() =~= a + b.drop_last());
    } else {
        assert(a + b =~= a);
    }
}

proof fn lemma_marks_shape()
    ensures
        marks().len() == 18,
        forall|i: int, j: int| 0 <= i < j < 18 ==> marks()[i].0 > marks()[j].0,
        forall|i: int| 0 <= i < 18 ==> marks()[i].1 == duration_text(marks()[i].0),
{
    let ms = marks();
    reveal_strlit("15 Min");
    reveal_strlit("10 Min");
    reveal_strlit("5 Min");
    reveal_strlit("4 Min");
    reveal_strlit("3 Min");
    reveal_strlit("2 Min");
    reveal_strlit("1 Min");
    reveal_strlit("30 Sek");
    reveal_strlit(" Min");
    reveal_strlit(" Sek");
    assert(ms[0] == (900nat, "15 Min"@));
    assert(ms[1] == (600nat, "10 Min"@));
    assert(ms[2] == (300nat, "5 Min"@));
    assert(ms[3] == (240nat, "4 Min"@));
    assert(ms[4] == (180nat, "3 Min"@));
    assert(ms[5] == (120nat, "2 Min"@));
    assert(ms[6] == (60nat, "1 Min"@));
    assert(ms[7] == (30nat, "30 Sek"@));
    assert forall|i: int| 8 <= i < 18 implies ms[i] == ((18 - i) as nat, decimal((18 - i) as nat)
        + " Sek"@) by {}
    assert(digit_char(1) == '1' && digit_char(5) == '5' && digit_char(0) == '0' && digit_char(3)
        == '3');
    assert(decimal(15) == decimal(1).push(digit_char(5)));
    assert(decimal(15) =~= seq!['1', '5']);
    assert(decimal(10) == decimal(1).push(digit_char(0)));
    assert(decimal(10) =~= seq!['1', '0']);
    assert(decimal(30) == decimal(3).push(digit_char(0)));
    assert(decimal(30) =~= seq!['3', '0']);
    assert(duration_text(900) =~= "15 Min"@);
    assert(duration_text(600) =~= "10 Min"@);
    assert(duration_text(300) =~= "5 Min"@);
    assert(duration_text(240) =~= "4 Min"@);
    assert(duration_text(180) =~= "3 Min"@);
    assert(duration_text(120) =~= "2 Min"@);
    assert(duration_text(60) =~= "1 Min"@);
    assert(duration_text(30) =~= "30 Sek"@);
}

/// What holds after the first `k` marks: the sleeps so far and the seconds left add up to
/// `total`, every announcement made is followed by exactly the seconds it names, and its text
/// names them.
proof fn lemma_mark_fold(k: nat, total: nat, strict: bool, word: Seq<char>)
    requires
        k <= 18,
    ensures
        ({
            let (s, prev) = mark_fold(k, total, strict, word);
            &&& prev <= total
            &&& sleep_total(s) + prev == total
            &&& forall|j: int|
                k <= j < 18 && mark_within(#[trigger] marks()[j].0, total, strict) ==> marks()[j].0
                    <= prev
            &&& forall|i: int|
                0 <= i < s.len() && #[trigger] s[i] is Say ==> s[i]->Say_0 >= prev && sleep_total(
                    s.skip(i + 1),
                ) + prev == s[i]->Say_0 && s[i]->Say_1 == announcement(word, duration_text(s[i]->Say_0))
        }),
    decreases k,
{
    lemma_marks_shape();
    if k > 0 {
        lemma_mark_fold((k - 1) as nat, total, strict, word);
        let (s, prev) = mark_fold((k - 1) as nat, total, strict, word);
        let m = marks()[k - 1];
        if mark_within(m.0, total, strict) {
            let wait: nat = if prev > m.0 {
                (prev - m.0) as nat
            } else {
                0
            };
            let s2 = if wait > 0 {
                s.push(ScriptStep::Sleep(wait))
            } else {
                s
            };
            let say = ScriptStep::Say(m.0, announcement(word, m.1));
            let s3 = s2.push(say);
            assert(mark_fold(k, total, strict, word) == (s3, m.0));
            let tail2 = if wait > 0 {
                seq![ScriptStep::Sleep(wait), say]
            } else {
                seq![say]
            };
            assert(s3 =~= s + tail2);
            assert(sleep_total(tail2) == wait) by {
                reveal_with_fuel(sleep_total, 3);
                if wait > 0 {
                    assert(tail2.drop_last() =~= seq![ScriptStep::Sleep(wait)]);
                    assert(tail2.drop_last().drop_last() =~= Seq::<ScriptStep>::empty());
                } else {
                    assert(tail2.drop_last() =~= Seq::<ScriptStep>::empty());
                }
            }
            lemma_sleep_total_append(s, tail2);
            assert forall|i: int| 0 <= i < s3.len() && #[trigger] s3[i] is Say implies s3[i]->Say_0
                >= m.0 && sleep_total(s3.skip(i + 1)) + m.0 == s3[i]->Say_0 && s3[i]->Say_1
                == announcement(word, duration_text(s3[i]->Say_0)) by {
                if i < s.len() {
                    assert(s3[i] == s[i]);
                    assert(s3.skip(i + 1) =~= s.skip(i + 1) + tail2);
                    lemma_sleep_total_append(s.skip(i + 1), tail2);
                } else if i == s3.len() - 1 {
                    assert(s3.skip(i + 1) =~= Seq::<ScriptStep>::empty());
                } else {
                    assert(wait > 0 && s3[i] == ScriptStep::Sleep(wait));
                }
            }
        }
    }
}

proof fn lemma_head(custom: Option<Seq<char>>, word: Seq<char>, total: nat)
    ensures
        ({
            let h = countdown_head(custom, word, total);
            &&& sleep_total(h) == 0
            &&& forall|i: int|
                0 <= i < h.len() ==> #[trigger] h[i] is Say && h[i]->Say_0 == total && sleep_total(
                    h.skip(i + 1),
                ) == 0 && (i == 1 ==> h[i]->Say_1 == announcement(word, duration_text(total)))
        }),
{
    reveal_with_fuel(sleep_total, 3);
    let h = countdown_head(custom, word, total);
    if custom is Some {
        assert(h.drop_last() =~= seq![h[0]]);
        assert(h.drop_last().drop_last() =~= Seq::<ScriptStep>::empty());
        assert(h.skip(1).drop_last() =~= Seq::<ScriptStep>::empty());
        assert(h.skip(2) =~= Seq::<ScriptStep>::empty());
    }
}

proof fn lemma_final_sleep(prev: nat)
    ensures
        sleep_total(final_sleep(prev)) == prev,
        forall|i: int| 0 <= i < final_sleep(prev).len() ==> #[trigger] final_sleep(prev)[i] is Sleep,
{
    reveal_with_fuel(sleep_total, 2);
    if prev > 0 {
        assert(final_sleep(prev).drop_last() =~= Seq::<ScriptStep>::empty());
    }
}

/// The timing of every countdown: its sleeps add up to `total`; every announcement is
/// followed by exactly the seconds it names before the save and the action; and each one but
/// the custom message reads `Server <word> in <those seconds>`.
pub proof fn lemma_countdown_timing(custom: Option<Seq<char>>, word: Seq<char>, total: nat)
    ensures
        ({
            let steps = countdown_steps(custom, word, total);
            &&& sleep_total(steps) == total
            &&& forall|i: int|
                0 <= i < steps.len() && #[trigger] steps[i] is Say ==> sleep_total(steps.skip(i + 1))
                    == steps[i]->Say_0
            &&& forall|i: int|
                0 <= i < steps.len() && #[trigger] steps[i] is Say && !(custom is Some && i == 0)
                    ==> steps[i]->Say_1 == announcement(word, duration_text(steps[i]->Say_0))
        }),
{
    lemma_mark_fold(18, total, custom is Some, word);
    lemma_head(custom, word, total);
    let h = countdown_head(custom, word, total);
    let (s, prev) = mark_fold(18, total, custom is Some, word);
    let t = final_sleep(prev);
    lemma_final_sleep(prev);
    let steps = countdown_steps(custom, word, total);
    assert(marks().len() == 18) by {
        lemma_marks_shape();
    }
    assert(steps == h + s + t);
    lemma_sleep_total_append(h, s);
    lemma_sleep_total_append(h + s, t);
    lemma_sleep_total_append(s, t);
    assert forall|i: int| 0 <= i < steps.len() && #[trigger] steps[i] is Say implies sleep_total(
        steps.skip(i + 1),
    ) == steps[i]->Say_0 && (!(custom is Some && i == 0) ==> steps[i]->Say_1 == announcement(
        word,
        duration_text(steps[i]->Say_0),
    )) by {
        lemma_timing_at(h, s, t, i, prev, total);
        if i < h.len() {
            assert(h.len() == 2 && custom is Some);
        }
    }
}

proof fn lemma_timing_at(h: Seq<ScriptStep>, s: Seq<ScriptStep>, t: Seq<ScriptStep>, i: int, prev: nat, total: nat)
    requires
        0 <= i < (h + s + t).len(),
        (h + s + t)[i] is Say,
        sleep_total(s) + prev == total,
        sleep_total(t) == prev,
        forall|j: int|
            0 <= j < h.len() ==> #[trigger] h[j] is Say && h[j]->Say_0 == total && sleep_total(
                h.skip(j + 1),
            ) == 0,
        forall|j: int|
            0 <= j < s.len() && #[trigger] s[j] is Say ==> sleep_total(s.skip(j + 1)) + prev
                == s[j]->Say_0,
        forall|j: int| 0 <= j < t.len() ==> #[trigger] t[j] is Sleep,
    ensures
        sleep_total((h + s + t).skip(i + 1)) == (h + s + t)[i]->Say_0,
        i < h.len() ==> (h + s + t)[i] == h[i],
        h.len() <= i < h.len() + s.len() ==> (h + s + t)[i] == s[i - h.len()],
{
    let steps = h + s + t;
    if i < h.len() {
        assert(steps[i] == h[i]);
        assert(steps.skip(i + 1) =~= h.skip(i + 1) + (s + t));
        lemma_sleep_total_append(h.skip(i + 1), s + t);
        lemma_sleep_total_append(s, t);
    } else if i < h.len() + s.len() {
        let j = i - h.len();
        assert(steps[i] == s[j]);
        assert(steps.skip(i + 1) =~= s.skip(j + 1) + t);
        lemma_sleep_total_append(s.skip(j + 1), t);
    } else {
        assert(steps[i] == t[i - h.len() - s.len()]);
    }
}

/// The commands of a countdown script, in the order it runs them: the countdown's steps, the
/// forced save and its two seconds (when the game has one), and the `systemctl` action.
pub open spec fn countdown_script_parts(
    instance: Option<InstanceRecord>,
    template: Option<GameTemplate>,
    unit_name: Seq<char>,
    action: Seq<char>,
    custom: Option<Seq<char>>,
    total: nat,
) -> Seq<Seq<char>> {
    step_texts(instance, template, unit_name, countdown_steps(custom, action_word(action), total)) + match save_text(
        instance,
        template,
    ) {
        Some(c) => seq![c, "sleep 2"@],
        None => seq![],
    } + seq!["sudo systemctl "@ + action + " "@ + unit_name]
}

/// The seconds a `sleep N` command waits (0 for any other command).
pub open spec fn sleep_of(cmd: Seq<char>) -> nat {
    match strip_prefix(cmd, "sleep "@) {
        Some(d) => if d.len() > 0 && all_digits(d) {
            digits_value(d)
        } else {
            0
        },
        None => 0,
    }
}

/// The seconds all `sleep` commands of a script wait together.
pub open spec fn script_sleep(parts: Seq<Seq<char>>) -> nat
    decreases parts.len(),
{
    if parts.len() == 0 {
        0
    } else {
        script_sleep(parts.drop_last()) + sleep_of(parts.last())
    }
}

proof fn lemma_script_sleep_append(a: Seq<Seq<char>>, b: Seq<Seq<char>>)
    ensures
        script_sleep(a + b) == script_sleep(a) + script_sleep(b),
    decreases b.len(),
{
    if b.len() == 0 {
        assert(a + b =~= a);
    } else {
        lemma_script_sleep_append(a, b.drop_last());
        assert((a + b).drop_last() =~= a + b.drop_last());
    }
}

proof fn lemma_decimal_digits(n: nat)
    ensures
        decimal(n).len() > 0,
        all_digits(decimal(n)),
        digits_value(decimal(n)) == n,
    decreases n,
{
    if n >= 10 {
        lemma_decimal_digits(n / 10);
        let d = decimal(n);
        assert(d.drop_last() =~= decimal(n / 10));
        assert(digit_value(digit_char(n % 10)) == n % 10);
        assert((n / 10) * 10 + n % 10 == n) by (nonlinear_arith);
        assert(d.last() == digit_char(n % 10));
        assert(digits_value(d) == digits_value(d.drop_last()) * 10 + digit_value(d.last()));
        assert forall|i: int| 0 <= i < d.len() implies crate::text::is_digit(#[trigger] d[i]) by {
            if i < d.len() - 1 {
                assert(d[i] == decimal(n / 10)[i]);
            }
        }
    } else {
        assert(digit_value(digit_char(n)) == n);
        assert(seq![digit_char(n)].drop_last() =~= Seq::<char>::empty());
        assert(digits_value(Seq::<char>::empty()) == 0);
        assert(digits_value(decimal(n)) == digits_value(Seq::<char>::empty()) * 10 + digit_value(digit_char(n)));
    }
}

proof fn lemma_sleep_of_sleep(n: nat)
    ensures
        sleep_of(sleep_text(n)) == n,
{
    reveal_strlit("sleep ");
    lemma_decimal_digits(n);
    let t = sleep_text(n);
    assert(t.subrange(0, 6) =~= "sleep "@);
    assert(t.skip(6) =~= decimal(n));
}

/// A command that starts with `t` or `su` is no `sleep`.
proof fn lemma_sleep_of_other(cmd: Seq<char>)
    requires
        cmd.len() >= 2,
        cmd[0] == 't' || (cmd[0] == 's' && cmd[1] == 'u'),
    ensures
        sleep_of(cmd) == 0,
{
    reveal_strlit("sleep ");
    if starts_with(cmd, "sleep "@) {
        assert(cmd.subrange(0, 6)[0] == cmd[0]);
        assert(cmd.subrange(0, 6)[1] == cmd[1]);
    }
}

proof fn lemma_broadcast_starts(
    instance: Option<InstanceRecord>,
    template: Option<GameTemplate>,
    unit_name: Seq<char>,
    message: Seq<char>,
)
    ensures
        broadcast_text(instance, template, unit_name, message).len() >= 2,
        broadcast_text(instance, template, unit_name, message)[0] == 't',
{
    reveal_strlit("timeout 5 sudo -u gameserver bash -c ");
    reveal_strlit("timeout 2 sudo -u gameserver bash -c ");
}

proof fn lemma_steps_sleep(
    instance: Option<InstanceRecord>,
    template: Option<GameTemplate>,
    unit_name: Seq<char>,
    steps: Seq<ScriptStep>,
)
    ensures
        script_sleep(step_texts(instance, template, unit_name, steps)) == sleep_total(steps),
    decreases steps.len(),
{
    if steps.len() > 0 {
        lemma_steps_sleep(instance, template, unit_name, steps.drop_last());
        let tx = step_texts(instance, template, unit_name, steps);
        assert(tx.drop_last() =~= step_texts(instance, template, unit_name, steps.drop_last()));
        assert(tx.last() == step_text(instance, template, unit_name, steps.last()));
        match steps.last() {
            ScriptStep::Sleep(n) => lemma_sleep_of_sleep(n),
            ScriptStep::Say(_, msg) => {
                lemma_broadcast_starts(instance, template, unit_name, msg);
                lemma_sleep_of_other(tx.last());
            },
        }
    }
}

proof fn lemma_fold_sleeps_positive(k: nat, total: nat, strict: bool, word: Seq<char>)
    ensures
        forall|j: int|
            0 <= j < mark_fold(k, total, strict, word).0.len() ==> (#[trigger] mark_fold(k, total, strict, word).0[j] matches ScriptStep::Sleep(n) ==> n > 0),
    decreases k,
{
    if k > 0 && k <= marks().len() {
        lemma_fold_sleeps_positive((k - 1) as nat, total, strict, word);
    }
}

/// Every sleep of the countdown waits at least a second.
proof fn lemma_steps_sleep_positive(custom: Option<Seq<char>>, word: Seq<char>, total: nat)
    ensures
        forall|j: int|
            0 <= j < countdown_steps(custom, word, total).len() ==> (#[trigger] countdown_steps(custom, word, total)[j] matches ScriptStep::Sleep(n) ==> n > 0),
{
    lemma_fold_sleeps_positive(marks().len(), total, custom is Some, word);
    let h = countdown_head(custom, word, total);
    let (f, prev) = mark_fold(marks().len(), total, custom is Some, word);
    let steps = countdown_steps(custom, word, total);
    assert forall|j: int| 0 <= j < steps.len() implies (#[trigger] steps[j] matches ScriptStep::Sleep(n) ==> n > 0) by {
        if j < h.len() {
            assert(steps[j] == h[j]);
        } else if j < h.len() + f.len() {
            assert(steps[j] == f[j - h.len()]);
        } else {
            assert(steps[j] == final_sleep(prev)[j - h.len() - f.len()]);
        }
    }
}

proof fn lemma_broadcast_ends(
    instance: Option<InstanceRecord>,
    template: Option<GameTemplate>,
    unit_name: Seq<char>,
    message: Seq<char>,
)
    ensures
        broadcast_text(instance, template, unit_name, message).last() == 'l',
{
    reveal_strlit(" 2>/dev/null");
}

/// A step's command does not end with `;`, and is no `sleep 0` when its sleep is positive.
proof fn lemma_step_text_shape(
    instance: Option<InstanceRecord>,
    template: Option<GameTemplate>,
    unit_name: Seq<char>,
    st: ScriptStep,
)
    requires
        st matches ScriptStep::Sleep(n) ==> n > 0,
    ensures
        step_text(instance, template, unit_name, st).len() > 0,
        step_text(instance, template, unit_name, st).last() != ';',
        step_text(instance, template, unit_name, st) != "sleep 0"@,
{
    reveal_strlit("sleep ");
    reveal_strlit("sleep 0");
    match st {
        ScriptStep::Sleep(n) => {
            lemma_decimal_digits(n);
            let t = sleep_text(n);
            assert(t.last() == decimal(n).last());
            assert(crate::text::is_digit(decimal(n)[decimal(n).len() - 1]));
            if t == "sleep 0"@ {
                assert(decimal(n) =~= t.skip(6));
                assert(decimal(n) =~= seq!['0']);
                assert(digits_value(seq!['0']) == 0) by {
                    assert(seq!['0'].drop_last() =~= Seq::<char>::empty());
                    assert(digits_value(Seq::<char>::empty()) == 0);
                }
            }
        },
        ScriptStep::Say(_, msg) => {
            lemma_broadcast_starts(instance, template, unit_name, msg);
            lemma_broadcast_ends(instance, template, unit_name, msg);
            let t = broadcast_text(instance, template, unit_name, msg);
            if t == "sleep 0"@ {
                assert(t[0] == 's');
            }
        },
    }
}

proof fn lemma_script_parts_sleep(
    instance: Option<InstanceRecord>,
    template: Option<GameTemplate>,
    unit_name: Seq<char>,
    action: Seq<char>,
    custom: Option<Seq<char>>,
    total: nat,
)
    ensures
        script_sleep(countdown_script_parts(instance, template, unit_name, action, custom, total)) == total
            + if save_text(instance, template) is Some {
            2nat
        } else {
            0nat
        },
{
    let steps = countdown_steps(custom, action_word(action), total);
    let body = step_texts(instance, template, unit_name, steps);
    let save = match save_text(instance, template) {
        Some(c) => seq![c, "sleep 2"@],
        None => seq![],
    };
    let last = "sudo systemctl "@ + action + " "@ + unit_name;
    let parts = countdown_script_parts(instance, template, unit_name, action, custom, total);
    assert(parts == body + save + seq![last]);
    lemma_steps_sleep(instance, template, unit_name, steps);
    lemma_countdown_timing(custom, action_word(action), total);
    lemma_script_sleep_append(body + save, seq![last]);
    lemma_script_sleep_append(body, save);
    reveal_strlit("sudo systemctl ");
    lemma_sleep_of_other(last);
    assert(script_sleep(seq![last]) == 0) by {
        assert(seq![last].drop_last() =~= Seq::<Seq<char>>::empty());
        assert(script_sleep(Seq::<Seq<char>>::empty()) == 0);
        assert(last[0] == 's' && last[1] == 'u');
    }
    match save_text(instance, template) {
        Some(c) => {
            reveal_strlit("sleep 2");
            reveal_strlit("timeout 5 sudo -u gameserver bash -c ");
            reveal_strlit("sleep ");
            assert("sleep 2"@ =~= sleep_text(2));
            lemma_sleep_of_sleep(2);
            lemma_sleep_of_other(c);
            assert(save.drop_last() =~= seq![c]);
            assert(seq![c].drop_last() =~= Seq::<Seq<char>>::empty());
            assert(script_sleep(Seq::<Seq<char>>::empty()) == 0);
            assert(script_sleep(seq![c]) == sleep_of(c));
            assert(script_sleep(save) == script_sleep(seq![c]) + sleep_of("sleep 2"@));
        },
        None => {
            assert(save =~= Seq::<Seq<char>>::empty());
            assert(script_sleep(save) == 0);
        },
    }
}

/// A restart or stop script runs, in order, the countdown's commands, the forced save with its
/// two seconds (when the game has one), and the `systemctl` action: splitting the script at
/// ` ; ` gives exactly these commands, none of them is `sleep 0`, and its `sleep`s add up to
/// the countdown's length (plus the two seconds after a save), so the action runs that long
/// after the first announcement. The split holds when no command holds ` ; ` (a custom
/// message or a configured command could otherwise add a separator of its own).
pub proof fn lemma_countdown_script(
    instance: Option<InstanceRecord>,
    template: Option<GameTemplate>,
    unit_name: Seq<char>,
    action: Seq<char>,
    custom: Option<Seq<char>>,
    total: nat,
)
    requires
        forall|j: int|
            0 <= j < countdown_script_parts(instance, template, unit_name, action, custom, total).len()
                ==> !contains(
                #[trigger] countdown_script_parts(instance, template, unit_name, action, custom, total)[j],
                " ; "@,
            ),
    ensures
        split_on(countdown_script_text(instance, template, unit_name, action, custom, total), " ; "@)
            == countdown_script_parts(instance, template, unit_name, action, custom, total),
        forall|j: int|
            0 <= j < countdown_script_parts(instance, template, unit_name, action, custom, total).len()
                ==> #[trigger] countdown_script_parts(instance, template, unit_name, action, custom, total)[j]
                != "sleep 0"@,
        script_sleep(countdown_script_parts(instance, template, unit_name, action, custom, total)) == total
            + if save_text(instance, template) is Some {
            2nat
        } else {
            0nat
        },
{
    reveal_strlit(" ; ");
    reveal_strlit(" ;");
    reveal_strlit("sleep 0");
    reveal_strlit("sleep 2");
    reveal_strlit("sudo systemctl ");
    reveal_strlit(" 2>/dev/null");
    let steps = countdown_steps(custom, action_word(action), total);
    let body = step_texts(instance, template, unit_name, steps);
    let save = match save_text(instance, template) {
        Some(c) => seq![c, "sleep 2"@],
        None => seq![],
    };
    let last = "sudo systemctl "@ + action + " "@ + unit_name;
    let parts = countdown_script_parts(instance, template, unit_name, action, custom, total);
    assert(parts == body + save + seq![last]);
    assert(countdown_script_text(instance, template, unit_name, action, custom, total) == join(parts, " ; "@));
    lemma_steps_sleep_positive(custom, action_word(action), total);
    assert forall|j: int| 0 <= j < parts.len() - 1 implies !ends_with(#[trigger] parts[j], " ;"@) && parts[j] != "sleep 0"@ by {
        if j < body.len() {
            assert(parts[j] == step_text(instance, template, unit_name, steps[j]));
            lemma_step_text_shape(instance, template, unit_name, steps[j]);
        } else if j == body.len() {
            reveal_strlit("timeout 5 sudo -u gameserver bash -c ");
            let c = save_text(instance, template)->0;
            assert(parts[j] == c);
            assert(c.last() == 'l');
            assert(c[0] == 't');
            assert("sleep 0"@[0] == 's');
        } else {
            assert(parts[j] == "sleep 2"@);
            assert("sleep 2"@[6] != "sleep 0"@[6]);
        }
        let x = parts[j];
        if ends_with(x, " ;"@) {
            assert(x.subrange(x.len() - 2, x.len() as int)[1] == x.last());
        }
    }
    assert(last[0] == 's' && last[1] == 'u');
    assert(parts[parts.len() - 1] == last);
    lemma_split_join_commands(parts);
    lemma_script_parts_sleep(instance, template, unit_name, action, custom, total);
}

/// The messages the steps announce, in order.
pub open spec fn say_msgs(steps: Seq<ScriptStep>) -> Seq<Seq<char>>
    decreases steps.len(),
{
    if steps.len() == 0 {
        seq![]
    } else {
        let r = say_msgs(steps.drop_last());
        match steps.last() {
            ScriptStep::Say(_, m) => r.push(m),
            ScriptStep::Sleep(_) => r,
        }
    }
}

/// The announcements of the first `k` countdown marks that fit, in mark order (longest first):
/// `Server <word> in <duration>`.
pub open spec fn mark_msgs(k: nat, total: nat, strict: bool, word: Seq<char>) -> Seq<Seq<char>>
    decreases k,
{
    if k == 0 || k > marks().len() {
        seq![]
    } else {
        let r = mark_msgs((k - 1) as nat, total, strict, word);
        if mark_within(marks()[k - 1].0, total, strict) {
            r.push(announcement(word, duration_text(marks()[k - 1].0)))
        } else {
            r
        }
    }
}

/// The messages a countdown announces: the custom message and the total time when there is a
/// custom message, then each mark that fits (strictly inside the total after a custom message,
/// up to it otherwise), longest first.
pub open spec fn countdown_msgs(custom: Option<Seq<char>>, word: Seq<char>, total: nat) -> Seq<Seq<char>> {
    let head: Seq<Seq<char>> = match custom {
        Some(m) => seq![m, announcement(word, duration_text(total))],
        None => seq![],
    };
    head + mark_msgs(marks().len(), total, custom is Some, word)
}

/// The commands of a script that are not `sleep`s, in order.
pub open spec fn announced_parts(parts: Seq<Seq<char>>) -> Seq<Seq<char>>
    decreases parts.len(),
{
    if parts.len() == 0 {
        seq![]
    } else {
        let r = announced_parts(parts.drop_last());
        if starts_with(parts.last(), "sleep "@) {
            r
        } else {
            r.push(parts.last())
        }
    }
}

/// The broadcast commands of `msgs`, in order.
pub open spec fn broadcasts(
    instance: Option<InstanceRecord>,
    template: Option<GameTemplate>,
    unit_name: Seq<char>,
    msgs: Seq<Seq<char>>,
) -> Seq<Seq<char>>
    decreases msgs.len(),
{
    if msgs.len() == 0 {
        seq![]
    } else {
        broadcasts(instance, template, unit_name, msgs.drop_last()).push(
            broadcast_text(instance, template, unit_name, msgs.last()),
        )
    }
}

proof fn lemma_say_msgs_append(a: Seq<ScriptStep>, b: Seq<ScriptStep>)
    ensures
        say_msgs(a + b) == say_msgs(a) + say_msgs(b),
    decreases b.len(),
{
    if b.len() == 0 {
        assert(a + b =~= a);
    } else {
        lemma_say_msgs_append(a, b.drop_last());
        assert((a + b).drop_last() =~= a + b.drop_last());
    }
}

proof fn lemma_fold_msgs(k: nat, total: nat, strict: bool, word: Seq<char>)
    requires
        k <= 18,
    ensures
        say_msgs(mark_fold(k, total, strict, word).0) == mark_msgs(k, total, strict, word),
    decreases k,
{
    lemma_marks_shape();
    reveal_with_fuel(say_msgs, 2);
    if k > 0 {
        lemma_fold_msgs((k - 1) as nat, total, strict, word);
        let (s, prev) = mark_fold((k - 1) as nat, total, strict, word);
        let m = marks()[k - 1];
        if mark_within(m.0, total, strict) {
            let wait: nat = if prev > m.0 {
                (prev - m.0) as nat
            } else {
                0
            };
            let s2 = if wait > 0 {
                s.push(ScriptStep::Sleep(wait))
            } else {
                s
            };
            assert(s2.push(ScriptStep::Say(m.0, announcement(word, m.1))).drop_last() == s2);
            if wait > 0 {
                assert(s2.drop_last() == s);
            }
            assert(m.1 == duration_text(m.0));
        }
    }
}

proof fn lemma_step_texts_announced(
    instance: Option<InstanceRecord>,
    template: Option<GameTemplate>,
    unit_name: Seq<char>,
    steps: Seq<ScriptStep>,
)
    ensures
        announced_parts(step_texts(instance, template, unit_name, steps)) == broadcasts(
            instance,
            template,
            unit_name,
            say_msgs(steps),
        ),
    decreases steps.len(),
{
    reveal_strlit("sleep ");
    if steps.len() > 0 {
        lemma_step_texts_announced(instance, template, unit_name, steps.drop_last());
        let tx = step_texts(instance, template, unit_name, steps);
        assert(tx.drop_last() =~= step_texts(instance, template, unit_name, steps.drop_last()));
        assert(tx.last() == step_text(instance, template, unit_name, steps.last()));
        match steps.last() {
            ScriptStep::Sleep(n) => {
                assert(sleep_text(n).subrange(0, 6) =~= "sleep "@);
            },
            ScriptStep::Say(_, msg) => {
                lemma_broadcast_starts(instance, template, unit_name, msg);
                let t = broadcast_text(instance, template, unit_name, msg);
                if starts_with(t, "sleep "@) {
                    assert(t.subrange(0, 6)[0] == t[0]);
                }
                let ms = say_msgs(steps);
                assert(ms.drop_last() == say_msgs(steps.drop_last()));
                assert(ms.last() == msg);
            },
        }
    }
}

/// The order of a restart or stop script: first the countdown's commands, whose announcements
/// are, in order, the custom message and the total time (when there is a custom message) and
/// then each countdown mark that fits, longest first (the marks strictly decrease); then the
/// forced save and `sleep 2` (when the game has one); and the `systemctl` action last. With
/// `lemma_countdown_script`, these are the commands the script splits into.
pub proof fn lemma_countdown_order(
    instance: Option<InstanceRecord>,
    template: Option<GameTemplate>,
    unit_name: Seq<char>,
    action: Seq<char>,
    custom: Option<Seq<char>>,
    total: nat,
)
    ensures
        forall|i: int, j: int| 0 <= i < j < marks().len() ==> marks()[i].0 > marks()[j].0,
        ({
            let parts = countdown_script_parts(instance, template, unit_name, action, custom, total);
            let n = countdown_steps(custom, action_word(action), total).len();
            &&& announced_parts(parts.take(n as int)) == broadcasts(
                instance,
                template,
                unit_name,
                countdown_msgs(custom, action_word(action), total),
            )
            &&& parts.last() == "sudo systemctl "@ + action + " "@ + unit_name
            &&& (save_text(instance, template) matches Some(c) ==> parts.len() == n + 3 && parts[n as int] == c
                && parts[n + 1int] == "sleep 2"@)
            &&& (save_text(instance, template) is None ==> parts.len() == n + 1)
        }),
{
    lemma_marks_shape();
    let word = action_word(action);
    let steps = countdown_steps(custom, word, total);
    let body = step_texts(instance, template, unit_name, steps);
    let parts = countdown_script_parts(instance, template, unit_name, action, custom, total);
    assert(parts.take(steps.len() as int) =~= body);
    lemma_step_texts_announced(instance, template, unit_name, steps);
    let h = countdown_head(custom, word, total);
    let (f, prev) = mark_fold(marks().len(), total, custom is Some, word);
    lemma_say_msgs_append(h + f, final_sleep(prev));
    lemma_say_msgs_append(h, f);
    lemma_fold_msgs(marks().len(), total, custom is Some, word);
    assert(say_msgs(final_sleep(prev)) == Seq::<Seq<char>>::empty()) by {
        reveal_with_fuel(say_msgs, 2);
        if prev > 0 {
            assert(final_sleep(prev).drop_last() =~= Seq::<ScriptStep>::empty());
        }
    }
    match custom {
        Some(m) => {
            let w = announcement(word, duration_text(total));
            assert(h.drop_last() =~= seq![ScriptStep::Say(total, m)]);
            assert(seq![ScriptStep::Say(total, m)].drop_last() =~= Seq::<ScriptStep>::empty());
            reveal_with_fuel(say_msgs, 3);
            assert(say_msgs(h) =~= seq![m, w]);
        },
        None => {
            assert(say_msgs(h) =~= Seq::<Seq<char>>::empty());
        },
    }
    assert(say_msgs(steps) =~= countdown_msgs(custom, word, total));
}


proof fn lemma_fold_prefix(k1: nat, k2: nat, total: nat, strict: bool, word: Seq<char>)
    requires
        k1 <= k2 <= 18,
    ensures
        mark_fold(k1, total, strict, word).0.len() <= mark_fold(k2, total, strict, word).0.len(),
        forall|j: int|
            0 <= j < mark_fold(k1, total, strict, word).0.len() ==> #[trigger] mark_fold(
                k2,
                total,
                strict,
                word,
            ).0[j] == mark_fold(k1, total, strict, word).0[j],
    decreases k2,
{
    lemma_marks_shape();
    if k1 < k2 {
        lemma_fold_prefix(k1, (k2 - 1) as nat, total, strict, word);
    }
}

proof fn lemma_fold_before(k: nat, total: nat, word: Seq<char>)
    requires
        k <= 18,
        forall|j: int| 0 <= j < k ==> #[trigger] marks()[j].0 > total,
    ensures
        mark_fold(k, total, false, word) == (Seq::<ScriptStep>::empty(), total),
    decreases k,
{
    lemma_marks_shape();
    if k > 0 {
        lemma_fold_before((k - 1) as nat, total, word);
    }
}

/// Without a custom message, every countdown mark up to and including the total time is
/// announced as `Server <word> in <duration of the mark>`; and when the total time is itself a
/// mark, that announcement is the first command of the script.
pub proof fn lemma_countdown_marks_announced(
    instance: Option<InstanceRecord>,
    template: Option<GameTemplate>,
    unit_name: Seq<char>,
    action: Seq<char>,
    total: nat,
)
    ensures
        ({
            let parts = countdown_script_parts(instance, template, unit_name, action, None, total);
            &&& forall|i: int|
                0 <= i < marks().len() && #[trigger] marks()[i].0 <= total ==> exists|j: int|
                    0 <= j < parts.len() && #[trigger] parts[j] == broadcast_text(
                        instance,
                        template,
                        unit_name,
                        announcement(action_word(action), duration_text(marks()[i].0)),
                    )
            &&& (exists|i: int| 0 <= i < marks().len() && #[trigger] marks()[i].0 == total) ==> parts[0]
                == broadcast_text(
                instance,
                template,
                unit_name,
                announcement(action_word(action), duration_text(total)),
            )
        }),
{
    lemma_marks_shape();
    let word = action_word(action);
    let parts = countdown_script_parts(instance, template, unit_name, action, None, total);
    let steps = countdown_steps(None, word, total);
    let (s, prev) = mark_fold(18, total, false, word);
    assert(steps =~= s + final_sleep(prev));
    assert forall|i: int| 0 <= i < marks().len() && #[trigger] marks()[i].0 <= total implies exists|j: int|
        0 <= j < parts.len() && #[trigger] parts[j] == broadcast_text(
            instance,
            template,
            unit_name,
            announcement(word, duration_text(marks()[i].0)),
        ) by {
        let m = marks()[i];
        let s1 = mark_fold((i + 1) as nat, total, false, word).0;
        lemma_fold_prefix((i + 1) as nat, 18, total, false, word);
        assert(s1.last() == ScriptStep::Say(m.0, announcement(word, m.1)));
        let j = s1.len() - 1;
        assert(s[j] == s1[j]);
        assert(steps[j] == s[j]);
        assert(parts[j] == step_text(instance, template, unit_name, steps[j]));
    }
    if exists|i: int| 0 <= i < marks().len() && #[trigger] marks()[i].0 == total {
        let i = choose|i: int| 0 <= i < marks().len() && #[trigger] marks()[i].0 == total;
        let m = marks()[i];
        lemma_fold_before(i as nat, total, word);
        let s1 = mark_fold((i + 1) as nat, total, false, word).0;
        assert(s1 =~= seq![ScriptStep::Say(m.0, announcement(word, m.1))]);
        lemma_fold_prefix((i + 1) as nat, 18, total, false, word);
        assert(s[0] == s1[0]);
        assert(steps[0] == s[0]);
        assert(parts[0] == step_text(instance, template, unit_name, steps[0]));
    }
}

} // verus!
