//! Server provisioning: distro detection, the `gameserver` systemd units, passwordless sudo,
//! swap, and the firewall. The shell commands are built here and the decisions taken here;
//! running them over SSH is the caller's part.
use vstd::prelude::*;

use crate::text::{
    chars_of, contains, contains_exec, decimal, decimal_exec, eq_exec, lines, lines_exec, lit,
    lowercase, lowercase_exec, occurs_at, push_all, replace, replace_exec, split_whitespace,
    split_whitespace_exec, string_of, trim, trim_exec,
};

verus! {

/// The Linux distro families the provisioning knows how to set up.
#[derive(Clone, Copy, PartialEq, Eq, Debug, Structural)]
pub enum DistroFamily {
    /// Ubuntu, Debian, and derivatives (apt/dpkg).
    Debian,
    /// Fedora, RHEL, CentOS Stream, Rocky, AlmaLinux (dnf).
    Fedora,
}

/// What the `MemoryHigh` limit is for a RAM limit: 90% of it, rounded down. (The value
/// `(ram_limit_mb as f64 * 0.9) as u32` is exactly this integer for every `u32`: the binary
/// value of 0.9 is slightly above 0.9, and the rounding error stays far below the distance to
/// the next integer.)
pub open spec fn memory_high_mb(ram_limit_mb: nat) -> nat {
    ram_limit_mb * 9 / 10
}

/// The systemd unit of a game instance.
pub open spec fn systemd_unit_text(
    instance_id: Seq<char>,
    working_dir: Seq<char>,
    start_command: Seq<char>,
    ram_limit_mb: nat,
    cpu_limit_percent: nat,
) -> Seq<char> {
    "[Unit]\nDescription=GrimmNetz Gameserver Instance "@ + instance_id
        + "\nAfter=network.target\n\n[Service]\nType=simple\nUser=gameserver\nWorkingDirectory="@
        + working_dir + "\nExecStart=/bin/bash -c '"@ + replace(start_command, "'"@, "'\\''"@)
        + "'\nStandardInput=fifo:/run/grimmnetz-"@ + instance_id + ".console\nMemoryMax="@
        + decimal(ram_limit_mb) + "M\nMemoryHigh="@ + decimal(memory_high_mb(ram_limit_mb))
        + "M\nCPUQuota="@ + decimal(cpu_limit_percent)
        + "%\nRestart=on-failure\nRestartSec=5\nKillSignal=SIGTERM\nTimeoutStopSec=60\nSuccessExitStatus=143\n\n[Install]\nWantedBy=multi-user.target\n"@
}

/// A line break at `i` is followed by `U`: the start of a line that could be `User=...`.
pub open spec fn breaks_into_u(s: Seq<char>, i: int) -> bool {
    0 <= i && i + 1 < s.len() && s[i] == '\n' && s[i + 1] == 'U'
}

spec fn no_break_into_u(s: Seq<char>) -> bool {
    forall|i: int| !#[trigger] breaks_into_u(s, i)
}

proof fn lemma_join_no_break_into_u(a: Seq<char>, b: Seq<char>)
    requires
        no_break_into_u(a),
        no_break_into_u(b),
        !(a.len() > 0 && a.last() == '\n' && b.len() > 0 && b[0] == 'U'),
    ensures
        no_break_into_u(a + b),
{
    assert forall|i: int| !#[trigger] breaks_into_u(a + b, i) by {
        if breaks_into_u(a + b, i) {
            if i + 1 < a.len() {
                assert(breaks_into_u(a, i));
            } else if i >= a.len() {
                assert(breaks_into_u(b, i - a.len()));
            }
        }
    }
}

proof fn lemma_tail_literal()
    ensures
        no_break_into_u(
            "%\nRestart=on-failure\nRestartSec=5\nKillSignal=SIGTERM\nTimeoutStopSec=60\nSuccessExitStatus=143\n\n[Install]\nWantedBy=multi-user.target\n"@,
        ),
{
    reveal_strlit(
        "%\nRestart=on-failure\nRestartSec=5\nKillSignal=SIGTERM\nTimeoutStopSec=60\nSuccessExitStatus=143\n\n[Install]\nWantedBy=multi-user.target\n",
    );
}

proof fn lemma_no_break_without_newline(s: Seq<char>)
    requires
        !s.contains('\n'),
    ensures
        no_break_into_u(s),
{
    assert forall|i: int| !#[trigger] breaks_into_u(s, i) by {
        if breaks_into_u(s, i) {
            assert(s.contains(s[i]));
        }
    }
}

proof fn lemma_decimal_no_newline(n: nat)
    ensures
        !decimal(n).contains('\n'),
    decreases n,
{
    if n >= 10 {
        lemma_decimal_no_newline(n / 10);
    }
    assert forall|i: int| 0 <= i < decimal(n).len() implies decimal(n)[i] != '\n' by {
        if n >= 10 && i < decimal(n / 10).len() {
            assert(decimal(n)[i] == decimal(n / 10)[i]);
            assert(decimal(n / 10).contains(decimal(n / 10)[i]) ==> decimal(n / 10)[i] != '\n');
        }
    }
}

proof fn lemma_escaped_no_newline(start_command: Seq<char>)
    requires
        !start_command.contains('\n'),
    ensures
        !replace(start_command, "'"@, "'\\''"@).contains('\n'),
{
    reveal_strlit("'");
    reveal_strlit("'\\''");
    let q = seq!['\n'];
    assert(!contains(start_command, q)) by {
        if contains(start_command, q) {
            let i = choose|i: int| occurs_at(start_command, i, q);
            assert(start_command.subrange(i, i + 1)[0] == start_command[i]);
            assert(start_command.contains(start_command[i]));
        }
    }
    assert(!contains("'\\''"@, q)) by {
        if contains("'\\''"@, q) {
            let i = choose|i: int| occurs_at("'\\''"@, i, q);
            assert("'\\''"@.subrange(i, i + 1)[0] == "'\\''"@[i]);
        }
    }
    crate::text::lemma_replace_keeps_absent(start_command, "'"@, "'\\''"@, q);
    let r = replace(start_command, "'"@, "'\\''"@);
    assert forall|i: int| 0 <= i < r.len() implies r[i] != '\n' by {
        if r[i] == '\n' {
            assert(r.subrange(i, i + 1) =~= q);
            assert(occurs_at(r, i, q));
        }
    }
}

/// The part of a unit after its `User=gameserver` line holds no line that starts with `U`.
proof fn lemma_unit_rest(
    instance_id: Seq<char>,
    working_dir: Seq<char>,
    start_command: Seq<char>,
    ram_limit_mb: nat,
    cpu_limit_percent: nat,
)
    requires
        !instance_id.contains('\n'),
        !working_dir.contains('\n'),
        !start_command.contains('\n'),
    ensures
        no_break_into_u(
            "WorkingDirectory="@ + working_dir + "\nExecStart=/bin/bash -c '"@ + replace(
                start_command,
                "'"@,
                "'\\''"@,
            ) + "'\nStandardInput=fifo:/run/grimmnetz-"@ + instance_id + ".console\nMemoryMax="@
                + decimal(ram_limit_mb) + "M\nMemoryHigh="@ + decimal(memory_high_mb(ram_limit_mb))
                + "M\nCPUQuota="@ + decimal(cpu_limit_percent)
                + "%\nRestart=on-failure\nRestartSec=5\nKillSignal=SIGTERM\nTimeoutStopSec=60\nSuccessExitStatus=143\n\n[Install]\nWantedBy=multi-user.target\n"@,
        ),
{
    reveal_strlit("WorkingDirectory=");
    reveal_strlit("\nExecStart=/bin/bash -c '");
    reveal_strlit("'\nStandardInput=fifo:/run/grimmnetz-");
    reveal_strlit(".console\nMemoryMax=");
    reveal_strlit("M\nMemoryHigh=");
    reveal_strlit("M\nCPUQuota=");
    reveal_strlit(
        "%\nRestart=on-failure\nRestartSec=5\nKillSignal=SIGTERM\nTimeoutStopSec=60\nSuccessExitStatus=143\n\n[Install]\nWantedBy=multi-user.target\n",
    );
    lemma_tail_literal();
    let esc = replace(start_command, "'"@, "'\\''"@);
    lemma_escaped_no_newline(start_command);
    lemma_decimal_no_newline(ram_limit_mb);
    lemma_decimal_no_newline(memory_high_mb(ram_limit_mb));
    lemma_decimal_no_newline(cpu_limit_percent);
    lemma_no_break_without_newline(working_dir);
    lemma_no_break_without_newline(esc);
    lemma_no_break_without_newline(instance_id);
    lemma_no_break_without_newline(decimal(ram_limit_mb));
    lemma_no_break_without_newline(decimal(memory_high_mb(ram_limit_mb)));
    lemma_no_break_without_newline(decimal(cpu_limit_percent));
    let a1 = "WorkingDirectory="@;
    let a2 = a1 + working_dir;
    lemma_join_no_break_into_u(a1, working_dir);
    assert(a2.last() != '\n') by {
        if working_dir.len() > 0 {
            assert(working_dir.contains(working_dir.last()));
        }
    }
    let a3 = a2 + "\nExecStart=/bin/bash -c '"@;
    lemma_join_no_break_into_u(a2, "\nExecStart=/bin/bash -c '"@);
    let a4 = a3 + esc;
    lemma_join_no_break_into_u(a3, esc);
    assert(a4.last() != '\n') by {
        if esc.len() > 0 {
            assert(esc.contains(esc.last()));
        }
    }
    let a5 = a4 + "'\nStandardInput=fifo:/run/grimmnetz-"@;
    lemma_join_no_break_into_u(a4, "'\nStandardInput=fifo:/run/grimmnetz-"@);
    let a6 = a5 + instance_id;
    lemma_join_no_break_into_u(a5, instance_id);
    assert(a6.last() != '\n') by {
        if instance_id.len() > 0 {
            assert(instance_id.contains(instance_id.last()));
        }
    }
    let a7 = a6 + ".console\nMemoryMax="@;
    lemma_join_no_break_into_u(a6, ".console\nMemoryMax="@);
    let d1 = decimal(ram_limit_mb);
    let a8 = a7 + d1;
    lemma_join_no_break_into_u(a7, d1);
    assert(a8.last() != '\n') by {
        if d1.len() > 0 {
            assert(d1.contains(d1.last()));
        }
    }
    let a9 = a8 + "M\nMemoryHigh="@;
    lemma_join_no_break_into_u(a8, "M\nMemoryHigh="@);
    let d2 = decimal(memory_high_mb(ram_limit_mb));
    let a10 = a9 + d2;
    lemma_join_no_break_into_u(a9, d2);
    assert(a10.last() != '\n') by {
        if d2.len() > 0 {
            assert(d2.contains(d2.last()));
        }
    }
    let a11 = a10 + "M\nCPUQuota="@;
    lemma_join_no_break_into_u(a10, "M\nCPUQuota="@);
    let d3 = decimal(cpu_limit_percent);
    let a12 = a11 + d3;
    lemma_join_no_break_into_u(a11, d3);
    lemma_join_no_break_into_u(
        a12,
        "%\nRestart=on-failure\nRestartSec=5\nKillSignal=SIGTERM\nTimeoutStopSec=60\nSuccessExitStatus=143\n\n[Install]\nWantedBy=multi-user.target\n"@,
    );
}

/// A game's unit runs the game as `gameserver` and as no one else: the unit has a
/// `User=gameserver` line, and every line break in it that is followed by `U` starts exactly
/// that line, so no second `User=` line can override it. This holds when the instance id, the
/// working directory and the start command hold no line break (a start command with one could
/// add a `User=` line of its own).
pub proof fn lemma_unit_runs_as_gameserver(
    instance_id: Seq<char>,
    working_dir: Seq<char>,
    start_command: Seq<char>,
    ram_limit_mb: nat,
    cpu_limit_percent: nat,
)
    requires
        !instance_id.contains('\n'),
        !working_dir.contains('\n'),
        !start_command.contains('\n'),
    ensures
        contains(
            systemd_unit_text(instance_id, working_dir, start_command, ram_limit_mb, cpu_limit_percent),
            "\nUser=gameserver\n"@,
        ),
        forall|i: int|
            #[trigger] breaks_into_u(
                systemd_unit_text(instance_id, working_dir, start_command, ram_limit_mb, cpu_limit_percent),
                i,
            ) ==> occurs_at(
                systemd_unit_text(instance_id, working_dir, start_command, ram_limit_mb, cpu_limit_percent),
                i,
                "\nUser=gameserver\n"@,
            ),
{
    let head = "[Unit]\nDescription=GrimmNetz Gameserver Instance "@;
    let mid = "\nAfter=network.target\n\n[Service]\nType=simple\nUser=gameserver\n"@;
    let user = "\nUser=gameserver\n"@;
    reveal_strlit("[Unit]\nDescription=GrimmNetz Gameserver Instance ");
    reveal_strlit("\nAfter=network.target\n\n[Service]\nType=simple\nUser=gameserver\n");
    reveal_strlit("\nAfter=network.target\n\n[Service]\nType=simple\nUser=gameserver\nWorkingDirectory=");
    reveal_strlit("WorkingDirectory=");
    reveal_strlit("\nUser=gameserver\n");
    assert("\nAfter=network.target\n\n[Service]\nType=simple\nUser=gameserver\nWorkingDirectory="@
        =~= mid + "WorkingDirectory="@);
    let hi = head + instance_id;
    let x = hi + mid;
    let y = "WorkingDirectory="@ + working_dir + "\nExecStart=/bin/bash -c '"@ + replace(
            start_command,
            "'"@,
            "'\\''"@,
        ) + "'\nStandardInput=fifo:/run/grimmnetz-"@ + instance_id + ".console\nMemoryMax="@
            + decimal(ram_limit_mb) + "M\nMemoryHigh="@ + decimal(memory_high_mb(ram_limit_mb))
            + "M\nCPUQuota="@ + decimal(cpu_limit_percent)
            + "%\nRestart=on-failure\nRestartSec=5\nKillSignal=SIGTERM\nTimeoutStopSec=60\nSuccessExitStatus=143\n\n[Install]\nWantedBy=multi-user.target\n"@;
    let unit = systemd_unit_text(instance_id, working_dir, start_command, ram_limit_mb, cpu_limit_percent);
    assert(unit =~= x + y);
    lemma_unit_rest(instance_id, working_dir, start_command, ram_limit_mb, cpu_limit_percent);
    lemma_no_break_without_newline(instance_id);
    assert(no_break_into_u(head));
    lemma_join_no_break_into_u(head, instance_id);
    let n = hi.len() as int;
    let m = mid.len() as int;
    assert forall|j: int| breaks_into_u(mid, j) implies j == m - 17 by {}
    let k = n + m - 17;
    assert(unit.subrange(k, k + 17) =~= user) by {
        assert(mid.subrange(m - 17, m) =~= user);
        assert forall|t: int| 0 <= t < 17 implies #[trigger] unit.subrange(k, k + 17)[t] == user[t] by {
            assert(x[k + t] == mid[m - 17 + t]);
            assert(mid.subrange(m - 17, m)[t] == mid[m - 17 + t]);
        }
    }
    assert(occurs_at(unit, k, user));
    assert forall|i: int| #[trigger] breaks_into_u(unit, i) implies occurs_at(unit, i, user) by {
        if i + 1 < n {
            assert(breaks_into_u(hi, i));
        } else if i + 1 == n {
            assert(unit[i + 1] == mid[0]);
        } else if i + 1 < n + m {
            assert(unit[i] == mid[i - n] && unit[i + 1] == mid[i - n + 1]);
            assert(breaks_into_u(mid, i - n));
        } else if i + 1 == n + m {
            assert(unit[i + 1] == y[0]);
        } else {
            assert(unit[i] == y[i - n - m] && unit[i + 1] == y[i - n - m + 1]);
            assert(breaks_into_u(y, i - n - m));
        }
    }
}

/// The end of `a`, then `d`, then the start of `b` occur where they stand in `p + a + d + b`.
proof fn lemma_span(p: Seq<char>, a: Seq<char>, d: Seq<char>, b: Seq<char>, t: int, u: int)
    requires
        0 <= t <= a.len(),
        0 <= u <= b.len(),
    ensures
        occurs_at(p + a + d + b, p.len() + a.len() - t, a.skip(a.len() - t) + d + b.take(u)),
{
    let s = p + a + d + b;
    let w = a.skip(a.len() - t) + d + b.take(u);
    let i = p.len() + a.len() - t;
    assert forall|k: int| 0 <= k < w.len() implies #[trigger] s.subrange(i, i + w.len())[k] == w[k] by {
        assert(s.subrange(i, i + w.len())[k] == s[i + k]);
    }
    assert(s.subrange(i, i + w.len()) =~= w);
}

proof fn lemma_extend(a: Seq<char>, b: Seq<char>, i: int, w: Seq<char>)
    requires
        occurs_at(a, i, w),
    ensures
        occurs_at(a + b, i, w),
{
    assert((a + b).subrange(i, i + w.len()) =~= a.subrange(i, i + w.len()));
}

/// A game's unit holds its start command, console, memory and CPU settings each between two
/// line breaks: `ExecStart=/bin/bash -c <quoted start command>`,
/// `StandardInput=fifo:/run/grimmnetz-<id>.console`, `MemoryMax=<ram>M`,
/// `MemoryHigh=<ram * 9 / 10>M` and `CPUQuota=<cpu>%`; each is a whole line of the unit when
/// the id and the start command hold no line break.
pub proof fn lemma_unit_lines(
    instance_id: Seq<char>,
    working_dir: Seq<char>,
    start_command: Seq<char>,
    ram_limit_mb: nat,
    cpu_limit_percent: nat,
)
    ensures
        ({
            let unit = systemd_unit_text(instance_id, working_dir, start_command, ram_limit_mb, cpu_limit_percent);
            &&& contains(unit, "\nExecStart=/bin/bash -c "@ + crate::games::single_quoted(start_command) + "\n"@)
            &&& contains(unit, "\nStandardInput=fifo:/run/grimmnetz-"@ + instance_id + ".console\n"@)
            &&& contains(unit, "\nMemoryMax="@ + decimal(ram_limit_mb) + "M\n"@)
            &&& contains(unit, "\nMemoryHigh="@ + decimal(memory_high_mb(ram_limit_mb)) + "M\n"@)
            &&& contains(unit, "\nCPUQuota="@ + decimal(cpu_limit_percent) + "%\n"@)
        }),
{
    let l1 = "[Unit]\nDescription=GrimmNetz Gameserver Instance "@;
    let l2 = "\nAfter=network.target\n\n[Service]\nType=simple\nUser=gameserver\nWorkingDirectory="@;
    let l3 = "\nExecStart=/bin/bash -c '"@;
    let l4 = "'\nStandardInput=fifo:/run/grimmnetz-"@;
    let l5 = ".console\nMemoryMax="@;
    let l6 = "M\nMemoryHigh="@;
    let l7 = "M\nCPUQuota="@;
    let l8 = "%\nRestart=on-failure\nRestartSec=5\nKillSignal=SIGTERM\nTimeoutStopSec=60\nSuccessExitStatus=143\n\n[Install]\nWantedBy=multi-user.target\n"@;
    let esc = replace(start_command, "'"@, "'\\''"@);
    let d1 = decimal(ram_limit_mb);
    let d2 = decimal(memory_high_mb(ram_limit_mb));
    let d3 = decimal(cpu_limit_percent);
    let p3 = l1 + instance_id + l2 + working_dir;
    let p4 = p3 + l3 + esc;
    let p5 = p4 + l4 + instance_id;
    let p6 = p5 + l5 + d1;
    let p7 = p6 + l6 + d2;
    let p8 = p7 + l7 + d3;
    let unit = systemd_unit_text(instance_id, working_dir, start_command, ram_limit_mb, cpu_limit_percent);
    assert(unit == p8 + l8);
    reveal_strlit("\nExecStart=/bin/bash -c '");
    reveal_strlit("'\nStandardInput=fifo:/run/grimmnetz-");
    reveal_strlit(".console\nMemoryMax=");
    reveal_strlit("M\nMemoryHigh=");
    reveal_strlit("M\nCPUQuota=");
    reveal_strlit("%\nRestart=on-failure\nRestartSec=5\nKillSignal=SIGTERM\nTimeoutStopSec=60\nSuccessExitStatus=143\n\n[Install]\nWantedBy=multi-user.target\n");
    reveal_strlit("\nExecStart=/bin/bash -c ");
    reveal_strlit("\n");
    reveal_strlit("\nStandardInput=fifo:/run/grimmnetz-");
    reveal_strlit(".console\n");
    reveal_strlit("\nMemoryMax=");
    reveal_strlit("M\n");
    reveal_strlit("\nMemoryHigh=");
    reveal_strlit("\nCPUQuota=");
    reveal_strlit("%\n");
    reveal_strlit("'");
    reveal_strlit("'\\''");
    // ExecStart
    assert("'"@ =~= crate::games::quote_char());
    assert("'\\''"@ =~= crate::games::quote_escape());
    let w1 = "\nExecStart=/bin/bash -c "@ + crate::games::single_quoted(start_command) + "\n"@;
    lemma_span(p3, l3, esc, l4, l3.len() as int, 2);
    assert(w1 =~= l3.skip(0) + esc + l4.take(2));
    lemma_extend(p4 + l4, instance_id, p3.len() as int, w1);
    lemma_extend(p5, l5, p3.len() as int, w1);
    lemma_extend(p5 + l5, d1, p3.len() as int, w1);
    lemma_extend(p6, l6, p3.len() as int, w1);
    lemma_extend(p6 + l6, d2, p3.len() as int, w1);
    lemma_extend(p7, l7, p3.len() as int, w1);
    lemma_extend(p7 + l7, d3, p3.len() as int, w1);
    lemma_extend(p8, l8, p3.len() as int, w1);
    // StandardInput
    let w2 = "\nStandardInput=fifo:/run/grimmnetz-"@ + instance_id + ".console\n"@;
    let i2 = p4.len() + 1int;
    lemma_span(p4, l4, instance_id, l5, l4.len() - 1, 9);
    assert(w2 =~= l4.skip(1) + instance_id + l5.take(9));
    lemma_extend(p5 + l5, d1, i2, w2);
    lemma_extend(p6, l6, i2, w2);
    lemma_extend(p6 + l6, d2, i2, w2);
    lemma_extend(p7, l7, i2, w2);
    lemma_extend(p7 + l7, d3, i2, w2);
    lemma_extend(p8, l8, i2, w2);
    // MemoryMax
    let w3 = "\nMemoryMax="@ + d1 + "M\n"@;
    let i3 = p5.len() + 8int;
    lemma_span(p5, l5, d1, l6, 11, 2);
    assert(w3 =~= l5.skip(8) + d1 + l6.take(2));
    lemma_extend(p6 + l6, d2, i3, w3);
    lemma_extend(p7, l7, i3, w3);
    lemma_extend(p7 + l7, d3, i3, w3);
    lemma_extend(p8, l8, i3, w3);
    // MemoryHigh
    let w4 = "\nMemoryHigh="@ + d2 + "M\n"@;
    let i4 = p6.len() + 1int;
    lemma_span(p6, l6, d2, l7, 12, 2);
    assert(w4 =~= l6.skip(1) + d2 + l7.take(2));
    lemma_extend(p7 + l7, d3, i4, w4);
    lemma_extend(p8, l8, i4, w4);
    // CPUQuota
    let w5 = "\nCPUQuota="@ + d3 + "%\n"@;
    lemma_span(p7, l7, d3, l8, 10, 2);
    assert(w5 =~= l7.skip(1) + d3 + l8.take(2));
}


/// Generates the systemd unit that runs a game server as `gameserver`, survives reboots, and
/// has its RAM and CPU limits enforced by the kernel. The start command runs through
/// `bash -c` with its single quotes escaped; stdin is the instance's console FIFO.
pub fn render_systemd_unit(
    instance_id: &str,
    working_dir: &str,
    start_command: &str,
    ram_limit_mb: u32,
    cpu_limit_percent: u32,
) -> (res: String)
    ensures
        res@ == systemd_unit_text(
            instance_id@,
            working_dir@,
            start_command@,
            ram_limit_mb as nat,
            cpu_limit_percent as nat,
        ),
{
    let q = lit("'");
    let e = lit("'\\''");
    proof {
        reveal_strlit("'");
        reveal_strlit("'\\''");
    }
    let id = chars_of(instance_id);
    let escaped = replace_exec(&chars_of(start_command), &q, &e);
    let high = (ram_limit_mb as u64) * 9 / 10;
    let mut s = lit("[Unit]\nDescription=GrimmNetz Gameserver Instance ");
    push_all(&mut s, &id);
    push_all(
        &mut s,
        &lit("\nAfter=network.target\n\n[Service]\nType=simple\nUser=gameserver\nWorkingDirectory="),
    );
    push_all(&mut s, &chars_of(working_dir));
    push_all(&mut s, &lit("\nExecStart=/bin/bash -c '"));
    push_all(&mut s, &escaped);
    push_all(&mut s, &lit("'\nStandardInput=fifo:/run/grimmnetz-"));
    push_all(&mut s, &id);
    push_all(&mut s, &lit(".console\nMemoryMax="));
    push_all(&mut s, &decimal_exec(ram_limit_mb as u64));
    push_all(&mut s, &lit("M\nMemoryHigh="));
    push_all(&mut s, &decimal_exec(high));
    push_all(&mut s, &lit("M\nCPUQuota="));
    push_all(&mut s, &decimal_exec(cpu_limit_percent as u64));
    push_all(
        &mut s,
        &lit(
            "%\nRestart=on-failure\nRestartSec=5\nKillSignal=SIGTERM\nTimeoutStopSec=60\nSuccessExitStatus=143\n\n[Install]\nWantedBy=multi-user.target\n",
        ),
    );
    string_of(&s)
}

/// The error text for an unsupported distro; `detected` is the trimmed, lower-cased
/// `/etc/os-release` excerpt.
pub open spec fn unsupported_distro_message(detected: Seq<char>) -> Seq<char> {
    "Diese Linux-Distribution wird noch nicht unterstützt (erkannt: "@ + detected
        + "). Aktuell unterstützt: Ubuntu/Debian und Fedora/RHEL/CentOS/Rocky/AlmaLinux."@
}

/// The distro family named by the `ID`/`ID_LIKE` lines of `/etc/os-release` (`raw`): checked
/// case-insensitively, Debian names first.
pub open spec fn distro_family_of(raw: Seq<char>) -> Result<DistroFamily, Seq<char>> {
    let l = lowercase(raw);
    if contains(l, "debian"@) || contains(l, "ubuntu"@) {
        Ok(DistroFamily::Debian)
    } else if contains(l, "fedora"@) || contains(l, "rhel"@) || contains(l, "centos"@) {
        Ok(DistroFamily::Fedora)
    } else {
        Err(unsupported_distro_message(trim(l)))
    }
}

/// The command whose output `distro_family_from_os_release` classifies.
pub fn os_release_command() -> (res: String)
    ensures
        res@ == "grep -E '^(ID|ID_LIKE)=' /etc/os-release"@,
{
    String::from_str("grep -E '^(ID|ID_LIKE)=' /etc/os-release")
}

/// Classifies a server into a distro family from its `/etc/os-release` `ID`/`ID_LIKE` lines -
/// derivatives often only name their parent in `ID_LIKE`.
pub fn distro_family_from_os_release(raw: &str) -> (res: Result<DistroFamily, String>)
    ensures
        match distro_family_of(raw@) {
            Ok(f) => res == Ok::<DistroFamily, String>(f),
            Err(m) => res matches Err(e) && e@ == m,
        },
{
    let l = lowercase_exec(&chars_of(raw));
    if contains_exec(&l, &lit("debian")) || contains_exec(&l, &lit("ubuntu")) {
        Ok(DistroFamily::Debian)
    } else if contains_exec(&l, &lit("fedora")) || contains_exec(&l, &lit("rhel")) || contains_exec(
        &l,
        &lit("centos"),
    ) {
        Ok(DistroFamily::Fedora)
    } else {
        let mut m = lit("Diese Linux-Distribution wird noch nicht unterstützt (erkannt: ");
        push_all(&mut m, &trim_exec(&l));
        push_all(
            &mut m,
            &lit("). Aktuell unterstützt: Ubuntu/Debian und Fedora/RHEL/CentOS/Rocky/AlmaLinux."),
        );
        Err(string_of(&m))
    }
}

/// The command that reads a firewall's status.
pub open spec fn firewall_status_command_text(family: DistroFamily) -> Seq<char> {
    match family {
        DistroFamily::Debian => "sudo ufw status 2>/dev/null"@,
        DistroFamily::Fedora => "systemctl is-active firewalld 2>/dev/null"@,
    }
}

pub fn firewall_status_command(family: DistroFamily) -> (res: String)
    ensures
        res@ == firewall_status_command_text(family),
{
    match family {
        DistroFamily::Debian => String::from_str("sudo ufw status 2>/dev/null"),
        DistroFamily::Fedora => String::from_str("systemctl is-active firewalld 2>/dev/null"),
    }
}

/// Whether the status output says the firewall is on: ufw reports `Status: active`,
/// firewalld answers exactly `active`.
pub open spec fn firewall_active_in(family: DistroFamily, status: Seq<char>) -> bool {
    match family {
        DistroFamily::Debian => contains(status, "Status: active"@),
        DistroFamily::Fedora => trim(status) == "active"@,
    }
}

/// Reads the status output of `firewall_status_command` (empty when the command failed).
pub fn is_firewall_active(family: DistroFamily, status: &str) -> (res: bool)
    ensures
        res == firewall_active_in(family, status@),
{
    let s = chars_of(status);
    match family {
        DistroFamily::Debian => contains_exec(&s, &lit("Status: active")),
        DistroFamily::Fedora => eq_exec(&trim_exec(&s), &lit("active")),
    }
}

/// The command that opens `port/protocol` in the active firewall.
pub open spec fn open_port_command_text(family: DistroFamily, port: nat, protocol: Seq<char>) -> Seq<
    char,
> {
    match family {
        DistroFamily::Debian => "sudo ufw allow "@ + decimal(port) + "/"@ + protocol,
        DistroFamily::Fedora => "sudo firewall-cmd --permanent --add-port="@ + decimal(port) + "/"@
            + protocol + " && sudo firewall-cmd --reload"@,
    }
}

/// What `open_port` runs once the status says the firewall is active; with no active firewall
/// it runs nothing (nothing blocks the port locally).
pub fn open_port(family: DistroFamily, status: &str, port: u16, protocol: &str) -> (res: Option<String>)
    ensures
        firewall_active_in(family, status@) ==> (res matches Some(c) && c@ == open_port_command_text(
            family,
            port as nat,
            protocol@,
        )),
        !firewall_active_in(family, status@) ==> res is None,
{
    if !is_firewall_active(family, status) {
        return None;
    }
    let mut c = match family {
        DistroFamily::Debian => lit("sudo ufw allow "),
        DistroFamily::Fedora => lit("sudo firewall-cmd --permanent --add-port="),
    };
    push_all(&mut c, &decimal_exec(port as u64));
    push_all(&mut c, &lit("/"));
    push_all(&mut c, &chars_of(protocol));
    match family {
        DistroFamily::Debian => {},
        DistroFamily::Fedora => push_all(&mut c, &lit(" && sudo firewall-cmd --reload")),
    }
    Some(string_of(&c))
}

/// `sudo systemctl <action> <unit>`.
pub fn control_instance(unit_name: &str, action: &str) -> (res: String)
    ensures
        res@ == "sudo systemctl "@ + action@ + " "@ + unit_name@,
{
    let mut c = lit("sudo systemctl ");
    push_all(&mut c, &chars_of(action));
    push_all(&mut c, &lit(" "));
    push_all(&mut c, &chars_of(unit_name));
    string_of(&c)
}

/// `sudo atrm <job>`: cancels a scheduled firewall rollback.
pub fn cancel_firewall_rollback(job_id: &str) -> (res: String)
    ensures
        res@ == "sudo atrm "@ + job_id@ + " 2>/dev/null"@,
{
    let mut c = lit("sudo atrm ");
    push_all(&mut c, &chars_of(job_id));
    push_all(&mut c, &lit(" 2>/dev/null"));
    string_of(&c)
}

/// The three commands that write a unit file, reload systemd, and enable the unit.
pub open spec fn install_unit_commands(unit_name: Seq<char>, unit_contents: Seq<char>) -> Seq<
    Seq<char>,
> {
    seq![
        "echo '"@ + replace(unit_contents, "'"@, "'\\''"@) + "' | sudo tee /etc/systemd/system/"@
            + unit_name + ".service > /dev/null"@,
        "sudo systemctl daemon-reload"@,
        "sudo systemctl enable "@ + unit_name,
    ]
}

/// Installs a systemd unit: the commands to run, in order, each of which must succeed.
pub fn install_systemd_unit(unit_name: &str, unit_contents: &str) -> (res: Vec<String>)
    ensures
        res@.map_values(|s: String| s@) == install_unit_commands(unit_name@, unit_contents@),
{
    let q = lit("'");
    let e = lit("'\\''");
    proof {
        reveal_strlit("'");
        reveal_strlit("'\\''");
    }
    let name = chars_of(unit_name);
    let mut a = lit("echo '");
    push_all(&mut a, &replace_exec(&chars_of(unit_contents), &q, &e));
    push_all(&mut a, &lit("' | sudo tee /etc/systemd/system/"));
    push_all(&mut a, &name);
    push_all(&mut a, &lit(".service > /dev/null"));
    let mut c = lit("sudo systemctl enable ");
    push_all(&mut c, &name);
    let v = vec![string_of(&a), String::from_str("sudo systemctl daemon-reload"), string_of(&c)];
    assert(v@.map_values(|s: String| s@) =~= install_unit_commands(unit_name@, unit_contents@));
    v
}


/// How a remote command ended: its combined output, or the error that stopped it.
pub enum ExecOutcome {
    Output(String),
    Failed(String),
}

/// What a provisioning run asks for next.
pub enum Action {
    /// Run this command and report its outcome.
    Run(String),
    /// Run this command with this text on its stdin and report its outcome.
    RunWithStdin(String, String),
    /// The run is over, with this result.
    Finish(Result<String, String>),
}

/// A successful finish reports the job id `job`.
pub open spec fn reports_job(a: Action, job: Option<String>) -> bool {
    match a {
        Action::Finish(Ok(j)) => job matches Some(x) && x@ == j@,
        _ => true,
    }
}

/// The output of a command whose failure the run tolerates (read as empty output).
pub open spec fn tolerant_output(ev: ExecOutcome) -> Seq<char> {
    match ev {
        ExecOutcome::Output(o) => o@,
        ExecOutcome::Failed(_) => seq![],
    }
}

/// Where a firewall activation stands.
#[derive(Clone, Copy, PartialEq, Eq, Structural)]
pub enum FirewallStage {
    Start,
    InstalledUfw,
    InstalledAt,
    EnabledAtd,
    Scheduled,
    Allowed,
    RuleChecked,
    Enabled,
    Reloading,
    Cancelled,
    Done,
}

/// Turning the firewall on with a safety net: an `at` job that turns it off again in two
/// minutes is scheduled before anything else, the SSH port is allowed, the rule is checked to
/// be present, and only then is the firewall switched to default-deny. On success the run's
/// result is the `at` job id, to be cancelled once a fresh connection confirms the server is
/// still reachable.
pub struct FirewallEnable {
    pub family: DistroFamily,
    pub ssh_port: u16,
    pub stage: FirewallStage,
    /// The `at` job id of the scheduled rollback, once known.
    pub job_id: Option<String>,
    /// The error to report after the rollback job has been cancelled.
    pub error: String,
}

/// The command the scheduled rollback runs.
pub open spec fn rollback_command_text(family: DistroFamily) -> Seq<char> {
    match family {
        DistroFamily::Debian => "sudo ufw --force disable"@,
        DistroFamily::Fedora => "sudo systemctl stop firewalld"@,
    }
}

/// The command that schedules the rollback.
pub open spec fn schedule_rollback_text(family: DistroFamily) -> Seq<char> {
    "echo '"@ + rollback_command_text(family) + "' | sudo at now + 2 minutes 2>&1"@
}

/// The command that allows the SSH port.
pub open spec fn allow_ssh_text(family: DistroFamily, port: nat) -> Seq<char> {
    match family {
        DistroFamily::Debian => "sudo ufw allow "@ + decimal(port) + "/tcp"@,
        DistroFamily::Fedora => "sudo firewall-cmd --permanent --add-port="@ + decimal(port)
            + "/tcp"@,
    }
}

/// The command that lists the rules added so far.
pub open spec fn list_rules_text(family: DistroFamily) -> Seq<char> {
    match family {
        DistroFamily::Debian => "sudo ufw show added 2>/dev/null"@,
        DistroFamily::Fedora => "sudo firewall-cmd --permanent --list-ports 2>/dev/null"@,
    }
}

/// The command that switches the firewall on (default-deny from then on).
pub open spec fn enable_firewall_text(family: DistroFamily) -> Seq<char> {
    match family {
        DistroFamily::Debian => "sudo ufw --force enable"@,
        DistroFamily::Fedora => "sudo systemctl enable --now firewalld"@,
    }
}

/// Whether the rule listing shows the SSH port allowed: for ufw some line contains
/// `allow <port>/tcp`, for firewalld some listed port is exactly `<port>/tcp`.
pub open spec fn ssh_rule_listed(family: DistroFamily, port: nat, listing: Seq<char>) -> bool {
    match family {
        DistroFamily::Debian => exists|i: int|
            0 <= i < lines(listing).len() && contains(
                #[trigger] lines(listing)[i],
                "allow "@ + decimal(port) + "/tcp"@,
            ),
        DistroFamily::Fedora => exists|i: int|
            0 <= i < split_whitespace(listing).len() && #[trigger] split_whitespace(listing)[i]
                == decimal(port) + "/tcp"@,
    }
}

/// The `at` job id in the scheduling output: the word after the first word `job`.
pub open spec fn at_job_id(out: Seq<char>) -> Option<Seq<char>> {
    let ws = split_whitespace(out);
    if exists|i: int| 0 <= i < ws.len() && ws[i] == "job"@ && forall|j: int| 0 <= j < i ==> #[trigger] ws[j] != "job"@ {
        let i = choose|i: int| 0 <= i < ws.len() && ws[i] == "job"@ && forall|j: int| 0 <= j < i ==> #[trigger] ws[j] != "job"@;
        if i + 1 < ws.len() {
            Some(ws[i + 1])
        } else {
            None
        }
    } else {
        None
    }
}

/// Reads the `at` job id out of the scheduling command's output.
pub fn parse_at_job_id(out: &str) -> (res: Option<String>)
    ensures
        match at_job_id(out@) {
            Some(j) => res matches Some(x) && x@ == j,
            None => res is None,
        },
{
    let ws = split_whitespace_exec(&chars_of(out));
    let ghost wv = split_whitespace(out@);
    let job = lit("job");
    let mut i: usize = 0;
    while i < ws.len()
        invariant
            i <= ws.len(),
            job@ == "job"@,
            wv == split_whitespace(out@),
            ws@.len() == wv.len(),
            forall|k: int| 0 <= k < ws@.len() ==> #[trigger] ws@[k]@ == wv[k],
            forall|j: int| 0 <= j < i ==> #[trigger] wv[j] != "job"@,
        decreases ws.len() - i,
    {
        if eq_exec(&ws[i], &job) {
            proof {
                let c = choose|c: int| 0 <= c < wv.len() && wv[c] == "job"@ && forall|j: int| 0 <= j < c ==> #[trigger] wv[j] != "job"@;
                assert(0 <= i < wv.len() && wv[i as int] == "job"@);
                if c < i {
                    assert(wv[c] != "job"@);
                } else if i < c {
                    assert(wv[i as int] != "job"@);
                }
            }
            if i + 1 < ws.len() {
                return Some(string_of(&ws[i + 1]));
            } else {
                return None;
            }
        }
        i += 1;
    }
    None
}

fn ssh_rule_listed_exec(family: DistroFamily, port: u16, listing: &Vec<char>) -> (res: bool)
    ensures
        res == ssh_rule_listed(family, port as nat, listing@),
{
    match family {
        DistroFamily::Debian => {
            let mut rule = lit("allow ");
            push_all(&mut rule, &decimal_exec(port as u64));
            push_all(&mut rule, &lit("/tcp"));
            let ls = lines_exec(listing);
            let ghost lv = lines(listing@);
            let mut i: usize = 0;
            while i < ls.len()
                invariant
                    i <= ls.len(),
                    lv == lines(listing@),
                    family == DistroFamily::Debian,
                    rule@ == "allow "@ + decimal(port as nat) + "/tcp"@,
                    ls@.len() == lv.len(),
                    forall|k: int| 0 <= k < ls@.len() ==> #[trigger] ls@[k]@ == lv[k],
                    forall|j: int| 0 <= j < i ==> !contains(#[trigger] lv[j], rule@),
                decreases ls.len() - i,
            {
                if contains_exec(&ls[i], &rule) {
                    assert(0 <= i < lines(listing@).len() && contains(
                        lines(listing@)[i as int],
                        "allow "@ + decimal(port as nat) + "/tcp"@,
                    ));
                    return true;
                }
                i += 1;
            }
            false
        },
        DistroFamily::Fedora => {
            let mut rule = decimal_exec(port as u64);
            push_all(&mut rule, &lit("/tcp"));
            let ws = split_whitespace_exec(listing);
            let ghost wv = split_whitespace(listing@);
            let mut i: usize = 0;
            while i < ws.len()
                invariant
                    i <= ws.len(),
                    wv == split_whitespace(listing@),
                    family == DistroFamily::Fedora,
                    rule@ == decimal(port as nat) + "/tcp"@,
                    ws@.len() == wv.len(),
                    forall|k: int| 0 <= k < ws@.len() ==> #[trigger] ws@[k]@ == wv[k],
                    forall|j: int| 0 <= j < i ==> #[trigger] wv[j] != rule@,
                decreases ws.len() - i,
            {
                if eq_exec(&ws[i], &rule) {
                    assert(0 <= i < split_whitespace(listing@).len() && split_whitespace(
                        listing@,
                    )[i as int] == decimal(port as nat) + "/tcp"@);
                    return true;
                }
                i += 1;
            }
            false
        },
    }
}

/// The commands the run must not issue before its safety steps: allowing the SSH port and
/// switching the firewall on.
pub open spec fn allow_prefix(family: DistroFamily) -> Seq<char> {
    match family {
        DistroFamily::Debian => "sudo ufw allow "@,
        DistroFamily::Fedora => "sudo firewall-cmd --permanent --add-port="@,
    }
}

proof fn lemma_differs_from(p: Seq<char>, rest: Seq<char>, c: Seq<char>, i: int)
    requires
        0 <= i < p.len(),
        i < c.len(),
        c[i] != p[i],
    ensures
        c != p + rest,
{
    assert((p + rest)[i] == p[i]);
}

/// `c` is neither the allow command nor the enable command of the run: it differs from the
/// allow command's fixed prefix at `ia` and from the enable command at `ie`.
proof fn lemma_guard_texts()
    ensures
        allow_prefix(DistroFamily::Debian) == seq!['s', 'u', 'd', 'o', ' ', 'u', 'f', 'w', ' ', 'a', 'l', 'l', 'o', 'w', ' '],
        allow_prefix(DistroFamily::Fedora).len() == 41,
        allow_prefix(DistroFamily::Fedora)[0] == 's',
        allow_prefix(DistroFamily::Fedora)[5] == 'f',
        allow_prefix(DistroFamily::Fedora)[20] == 'p',
        allow_prefix(DistroFamily::Fedora)[32] == 'a',
        enable_firewall_text(DistroFamily::Debian).len() == 23,
        enable_firewall_text(DistroFamily::Debian)[0] == 's',
        enable_firewall_text(DistroFamily::Debian)[5] == 'u',
        enable_firewall_text(DistroFamily::Debian)[9] == '-',
        enable_firewall_text(DistroFamily::Fedora).len() == 37,
        enable_firewall_text(DistroFamily::Fedora)[0] == 's',
        enable_firewall_text(DistroFamily::Fedora)[5] == 's',
        enable_firewall_text(DistroFamily::Fedora)[28] == 'f',
{
    reveal_strlit("sudo ufw allow ");
    reveal_strlit("sudo firewall-cmd --permanent --add-port=");
    reveal_strlit("sudo ufw --force enable");
    reveal_strlit("sudo systemctl enable --now firewalld");
}

proof fn lemma_not_guarded(family: DistroFamily, port: nat, c: Seq<char>, ia: int, ie: int)
    requires
        0 <= ia < allow_prefix(family).len(),
        ia < c.len(),
        c[ia] != allow_prefix(family)[ia],
        0 <= ie < enable_firewall_text(family).len(),
        ie < c.len(),
        c[ie] != enable_firewall_text(family)[ie],
    ensures
        c != allow_ssh_text(family, port),
        c != enable_firewall_text(family),
{
    match family {
        DistroFamily::Debian => {
            lemma_differs_from("sudo ufw allow "@, decimal(port) + "/tcp"@, c, ia);
            assert("sudo ufw allow "@ + (decimal(port) + "/tcp"@) =~= "sudo ufw allow "@ + decimal(
                port,
            ) + "/tcp"@);
        },
        DistroFamily::Fedora => {
            lemma_differs_from(
                "sudo firewall-cmd --permanent --add-port="@,
                decimal(port) + "/tcp"@,
                c,
                ia,
            );
            assert("sudo firewall-cmd --permanent --add-port="@ + (decimal(port) + "/tcp"@)
                =~= "sudo firewall-cmd --permanent --add-port="@ + decimal(port) + "/tcp"@);
        },
    }
}

fn outcome_text(ev: &ExecOutcome) -> (res: String)
    ensures
        res@ == tolerant_output(*ev),
{
    match ev {
        ExecOutcome::Output(o) => o.clone(),
        ExecOutcome::Failed(_) => String::new(),
    }
}

/// The first command of a firewall activation: installing ufw where it is missing
/// (Debian), or straight away `at` (Fedora).
pub open spec fn firewall_first_text(family: DistroFamily) -> Seq<char> {
    match family {
        DistroFamily::Debian => "command -v ufw &>/dev/null || sudo apt-get install -y ufw"@,
        DistroFamily::Fedora => install_at_text(),
    }
}

/// Installs `at`, the scheduler of the rollback, where it is missing.
pub open spec fn install_at_text() -> Seq<char> {
    "command -v at &>/dev/null || (sudo apt-get install -y at || sudo dnf install -y at)"@
}

/// The error when the SSH rule could not be found before switching the firewall on.
pub open spec fn rule_missing_message(family: DistroFamily, port: nat) -> Seq<char> {
    "SSH-Port "@ + decimal(port) + match family {
        DistroFamily::Debian =>
            "/tcp wurde nicht in den ufw-Regeln gefunden - Firewall wurde zur Sicherheit NICHT aktiviert."@,
        DistroFamily::Fedora =>
            "/tcp wurde nicht in den firewalld-Regeln gefunden - Firewall wurde zur Sicherheit NICHT aktiviert."@,
    }
}

/// The text of a job id, empty when there is none.
pub open spec fn job_text(job: Option<String>) -> Seq<char> {
    match job {
        Some(j) => j@,
        None => seq![],
    }
}

/// The action runs command `c`.
pub open spec fn runs(a: Action, c: Seq<char>) -> bool {
    a matches Action::Run(x) && x@ == c
}

/// The action ends the run with error `e`.
pub open spec fn fails_with(a: Action, e: Seq<char>) -> bool {
    a matches Action::Finish(Err(m)) && m@ == e
}

/// A failed command ends the run with its error; otherwise `then` holds.
pub open spec fn unless_failed(ev: ExecOutcome, a: Action, then: bool) -> bool {
    match ev {
        ExecOutcome::Failed(e) => fails_with(a, e@),
        ExecOutcome::Output(_) => then,
    }
}

/// The run finishes with the rollback job's id.
pub open spec fn finishes_with_job(a: Action, job: Option<String>) -> bool {
    match job {
        Some(j) => a matches Action::Finish(Ok(x)) && x@ == j@,
        None => fails_with(a, seq![]),
    }
}

impl FirewallEnable {
    /// Once the rollback is scheduled, its job id is kept.
    pub open spec fn wf(&self) -> bool {
        match self.stage {
            FirewallStage::Allowed | FirewallStage::RuleChecked | FirewallStage::Enabled
            | FirewallStage::Reloading | FirewallStage::Cancelled => self.job_id is Some,
            _ => true,
        }
    }

    /// A fresh run for a server of `family` whose SSH port is `ssh_port`.
    pub fn new(family: DistroFamily, ssh_port: u16) -> (res: FirewallEnable)
        ensures
            res.family == family,
            res.ssh_port == ssh_port,
            res.stage == FirewallStage::Start,
            res.job_id is None,
            res.wf(),
    {
        FirewallEnable {
            family,
            ssh_port,
            stage: FirewallStage::Start,
            job_id: None,
            error: String::new(),
        }
    }

    /// Takes the outcome of the previous command (ignored on the first call) and says what to
    /// do next. A failing command aborts the run with its error, except the rule listing (read
    /// as empty) and the rollback cancellation (whose outcome is not looked at).
    pub fn next(&mut self, ev: ExecOutcome) -> (res: Action)
        requires
            old(self).wf(),
        ensures
            final(self).wf(),
            final(self).family == old(self).family,
            final(self).ssh_port == old(self).ssh_port,
            // The firewall is only ever switched to default-deny right after the rule listing
            // showed the SSH port allowed.
            (res matches Action::Run(c) && c@ == enable_firewall_text(old(self).family)) ==> (
            final(self).stage == FirewallStage::Enabled),
            final(self).stage == FirewallStage::Enabled ==> (old(self).stage
                == FirewallStage::RuleChecked && ssh_rule_listed(
                old(self).family,
                old(self).ssh_port as nat,
                tolerant_output(ev),
            )),
            // Nothing touches the firewall's rules before the rollback job is scheduled.
            (res matches Action::Run(c) && (c@ == allow_ssh_text(
                old(self).family,
                old(self).ssh_port as nat,
            ) || c@ == enable_firewall_text(old(self).family))) ==> final(self).job_id is Some,
            // Success reports the scheduled rollback job.
            reports_job(res, final(self).job_id),
            old(self).stage != FirewallStage::Scheduled ==> final(self).job_id == old(self).job_id,
            res is Finish ==> final(self).stage == FirewallStage::Done,
            match old(self).stage {
                FirewallStage::Start => runs(res, firewall_first_text(old(self).family)),
                FirewallStage::InstalledUfw => unless_failed(ev, res, runs(res, install_at_text())),
                FirewallStage::InstalledAt => unless_failed(
                    ev,
                    res,
                    runs(res, "sudo systemctl enable --now atd"@),
                ),
                FirewallStage::EnabledAtd => unless_failed(
                    ev,
                    res,
                    runs(res, schedule_rollback_text(old(self).family)),
                ),
                FirewallStage::Scheduled => match ev {
                    ExecOutcome::Failed(e) => fails_with(res, e@),
                    ExecOutcome::Output(o) => match at_job_id(o@) {
                        Some(j) => runs(res, allow_ssh_text(old(self).family, old(self).ssh_port as nat))
                            && job_text(final(self).job_id) == j && final(self).job_id is Some,
                        None => fails_with(res, "Konnte geplanten Rollback-Job nicht auslesen: "@ + o@),
                    },
                },
                FirewallStage::Allowed => unless_failed(ev, res, runs(res, list_rules_text(old(self).family))),
                FirewallStage::RuleChecked => if ssh_rule_listed(
                    old(self).family,
                    old(self).ssh_port as nat,
                    tolerant_output(ev),
                ) {
                    runs(res, enable_firewall_text(old(self).family))
                } else {
                    runs(res, "sudo atrm "@ + job_text(old(self).job_id) + " 2>/dev/null"@)
                        && final(self).stage == FirewallStage::Cancelled && final(self).error@
                        == rule_missing_message(old(self).family, old(self).ssh_port as nat)
                },
                FirewallStage::Enabled => unless_failed(
                    ev,
                    res,
                    match old(self).family {
                        DistroFamily::Debian => finishes_with_job(res, old(self).job_id),
                        DistroFamily::Fedora => runs(res, "sudo firewall-cmd --reload"@),
                    },
                ),
                FirewallStage::Reloading => unless_failed(ev, res, finishes_with_job(res, old(self).job_id)),
                FirewallStage::Cancelled => fails_with(res, old(self).error@),
                FirewallStage::Done => fails_with(res, seq![]),
            },
    {
        let family = self.family;
        let port = self.ssh_port;
        match self.stage {
            FirewallStage::Start => {
                match family {
                    DistroFamily::Debian => {
                        self.stage = FirewallStage::InstalledUfw;
                        proof {
                            reveal_strlit("command -v ufw &>/dev/null || sudo apt-get install -y ufw");
                            lemma_guard_texts();
                            lemma_not_guarded(
                                family,
                                port as nat,
                                "command -v ufw &>/dev/null || sudo apt-get install -y ufw"@,
                                0,
                                0,
                            );
                        }
                        Action::Run(
                            String::from_str(
                                "command -v ufw &>/dev/null || sudo apt-get install -y ufw",
                            ),
                        )
                    },
                    DistroFamily::Fedora => {
                        self.stage = FirewallStage::InstalledAt;
                        proof {
                            reveal_strlit("command -v at &>/dev/null || (sudo apt-get install -y at || sudo dnf install -y at)");
                            lemma_guard_texts();
                            lemma_not_guarded(family, port as nat, "command -v at &>/dev/null || (sudo apt-get install -y at || sudo dnf install -y at)"@, 0, 0);
                        }
                        Action::Run(
                            String::from_str(
                                "command -v at &>/dev/null || (sudo apt-get install -y at || sudo dnf install -y at)",
                            ),
                        )
                    },
                }
            },
            FirewallStage::InstalledUfw => {
                if let ExecOutcome::Failed(e) = ev {
                    self.stage = FirewallStage::Done;
                    return Action::Finish(Err(e));
                }
                self.stage = FirewallStage::InstalledAt;
                proof {
                    reveal_strlit("command -v at &>/dev/null || (sudo apt-get install -y at || sudo dnf install -y at)");
                    lemma_guard_texts();
                    lemma_not_guarded(family, port as nat, "command -v at &>/dev/null || (sudo apt-get install -y at || sudo dnf install -y at)"@, 0, 0);
                }
                Action::Run(
                    String::from_str(
                        "command -v at &>/dev/null || (sudo apt-get install -y at || sudo dnf install -y at)",
                    ),
                )
            },
            FirewallStage::InstalledAt => {
                if let ExecOutcome::Failed(e) = ev {
                    self.stage = FirewallStage::Done;
                    return Action::Finish(Err(e));
                }
                self.stage = FirewallStage::EnabledAtd;
                proof {
                    reveal_strlit("sudo systemctl enable --now atd");
                    lemma_guard_texts();
                    match family {
                        DistroFamily::Debian => lemma_not_guarded(
                            family,
                            port as nat,
                            "sudo systemctl enable --now atd"@,
                            5,
                            5,
                        ),
                        DistroFamily::Fedora => lemma_not_guarded(
                            family,
                            port as nat,
                            "sudo systemctl enable --now atd"@,
                            5,
                            28,
                        ),
                    }
                }
                Action::Run(String::from_str("sudo systemctl enable --now atd"))
            },
            FirewallStage::EnabledAtd => {
                if let ExecOutcome::Failed(e) = ev {
                    self.stage = FirewallStage::Done;
                    return Action::Finish(Err(e));
                }
                self.stage = FirewallStage::Scheduled;
                let mut c = lit("echo '");
                match family {
                    DistroFamily::Debian => push_all(&mut c, &lit("sudo ufw --force disable")),
                    DistroFamily::Fedora => push_all(&mut c, &lit("sudo systemctl stop firewalld")),
                }
                push_all(&mut c, &lit("' | sudo at now + 2 minutes 2>&1"));
                proof {
                    reveal_strlit("echo '");
                    lemma_guard_texts();
                    assert(c@[0] == 'e');
                    lemma_not_guarded(family, port as nat, c@, 0, 0);
                }
                Action::Run(string_of(&c))
            },
            FirewallStage::Scheduled => {
                let out = match ev {
                    ExecOutcome::Failed(e) => {
                        self.stage = FirewallStage::Done;
                        return Action::Finish(Err(e));
                    },
                    ExecOutcome::Output(o) => o,
                };
                match parse_at_job_id(out.as_str()) {
                    Some(j) => {
                        self.job_id = Some(j);
                        self.stage = FirewallStage::Allowed;
                        let mut c = match family {
                            DistroFamily::Debian => lit("sudo ufw allow "),
                            DistroFamily::Fedora => lit("sudo firewall-cmd --permanent --add-port="),
                        };
                        push_all(&mut c, &decimal_exec(port as u64));
                        push_all(&mut c, &lit("/tcp"));
                        proof {
                            lemma_guard_texts();
                            let en = enable_firewall_text(family);
                            match family {
                                DistroFamily::Debian => {
                                    assert(c@[9] == 'a');
                                    lemma_differs_from(en, seq![], c@, 9);
                                },
                                DistroFamily::Fedora => {
                                    assert(c@[5] == 'f');
                                    lemma_differs_from(en, seq![], c@, 5);
                                },
                            }
                            assert(en + Seq::<char>::empty() =~= en);
                        }
                        Action::Run(string_of(&c))
                    },
                    None => {
                        self.stage = FirewallStage::Done;
                        let mut m = lit("Konnte geplanten Rollback-Job nicht auslesen: ");
                        push_all(&mut m, &chars_of(out.as_str()));
                        Action::Finish(Err(string_of(&m)))
                    },
                }
            },
            FirewallStage::Allowed => {
                if let ExecOutcome::Failed(e) = ev {
                    self.stage = FirewallStage::Done;
                    return Action::Finish(Err(e));
                }
                self.stage = FirewallStage::RuleChecked;
                proof {
                    reveal_strlit("sudo ufw show added 2>/dev/null");
                    reveal_strlit("sudo firewall-cmd --permanent --list-ports 2>/dev/null");
                    lemma_guard_texts();
                    match family {
                        DistroFamily::Debian => lemma_not_guarded(
                            family,
                            port as nat,
                            "sudo ufw show added 2>/dev/null"@,
                            9,
                            9,
                        ),
                        DistroFamily::Fedora => lemma_not_guarded(
                            family,
                            port as nat,
                            "sudo firewall-cmd --permanent --list-ports 2>/dev/null"@,
                            32,
                            5,
                        ),
                    }
                }
                match family {
                    DistroFamily::Debian => Action::Run(
                        String::from_str("sudo ufw show added 2>/dev/null"),
                    ),
                    DistroFamily::Fedora => Action::Run(
                        String::from_str("sudo firewall-cmd --permanent --list-ports 2>/dev/null"),
                    ),
                }
            },
            FirewallStage::RuleChecked => {
                let listing = outcome_text(&ev);
                if ssh_rule_listed_exec(family, port, &chars_of(listing.as_str())) {
                    self.stage = FirewallStage::Enabled;
                    proof {
                        reveal_strlit("sudo ufw --force enable");
                        reveal_strlit("sudo systemctl enable --now firewalld");
                    }
                    match family {
                        DistroFamily::Debian => Action::Run(
                            String::from_str("sudo ufw --force enable"),
                        ),
                        DistroFamily::Fedora => Action::Run(
                            String::from_str("sudo systemctl enable --now firewalld"),
                        ),
                    }
                } else {
                    let mut m = lit("SSH-Port ");
                    push_all(&mut m, &decimal_exec(port as u64));
                    match family {
                        DistroFamily::Debian => push_all(
                            &mut m,
                            &lit(
                                "/tcp wurde nicht in den ufw-Regeln gefunden - Firewall wurde zur Sicherheit NICHT aktiviert.",
                            ),
                        ),
                        DistroFamily::Fedora => push_all(
                            &mut m,
                            &lit(
                                "/tcp wurde nicht in den firewalld-Regeln gefunden - Firewall wurde zur Sicherheit NICHT aktiviert.",
                            ),
                        ),
                    }
                    self.error = string_of(&m);
                    self.stage = FirewallStage::Cancelled;
                    let mut c = lit("sudo atrm ");
                    match &self.job_id {
                        Some(j) => push_all(&mut c, &chars_of(j.as_str())),
                        None => {},
                    }
                    push_all(&mut c, &lit(" 2>/dev/null"));
                    proof {
                        reveal_strlit("sudo atrm ");
                        lemma_guard_texts();
                        assert(c@[5] == 'a');
                        lemma_not_guarded(family, port as nat, c@, 5, 5);
                    }
                    Action::Run(string_of(&c))
                }
            },
            FirewallStage::Enabled => {
                if let ExecOutcome::Failed(e) = ev {
                    self.stage = FirewallStage::Done;
                    return Action::Finish(Err(e));
                }
                match family {
                    DistroFamily::Debian => {
                        self.stage = FirewallStage::Done;
                        match &self.job_id {
                            Some(j) => Action::Finish(Ok(j.clone())),
                            None => Action::Finish(Err(String::new())),
                        }
                    },
                    DistroFamily::Fedora => {
                        self.stage = FirewallStage::Reloading;
                        proof {
                            reveal_strlit("sudo firewall-cmd --reload");
                            lemma_guard_texts();
                            lemma_not_guarded(
                                family,
                                port as nat,
                                "sudo firewall-cmd --reload"@,
                                20,
                                5,
                            );
                        }
                        Action::Run(String::from_str("sudo firewall-cmd --reload"))
                    },
                }
            },
            FirewallStage::Reloading => {
                self.stage = FirewallStage::Done;
                if let ExecOutcome::Failed(e) = ev {
                    return Action::Finish(Err(e));
                }
                match &self.job_id {
                    Some(j) => Action::Finish(Ok(j.clone())),
                    None => Action::Finish(Err(String::new())),
                }
            },
            FirewallStage::Cancelled => {
                self.stage = FirewallStage::Done;
                Action::Finish(Err(self.error.clone()))
            },
            FirewallStage::Done => {
                Action::Finish(Err(String::new()))
            },
        }
    }
}

} // verus!
