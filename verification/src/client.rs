//! The control-socket client's side: judging a reply and rendering the
//! target's inventory.
//!
//! The texts are stated as what they add to a text `acc` that is already
//! there.

use vstd::prelude::*;

use crate::json::{child, count, item, number, parse_json, push_opt, string_or, Json};
use crate::text::{chars_of, find, parse_number, part, push_dec, same_text, trim};

verus! {

/// The reply says that the request succeeded.
pub open spec fn says_ok(reply: crate::json::JsonV) -> bool {
    crate::json::at(reply, "ok"@) == crate::json::JsonV::Bool(true)
}

/// What a reply line is.
pub enum Reply {
    /// No JSON document; the parser's message.
    Garbled { message: String },
    /// The target refused the request.
    Refused,
    /// The request succeeded; the whole reply.
    Accepted { reply: Json },
}

/// Judge a reply line.
pub fn check_reply(raw: &str) -> (r: Reply)
    ensures
        match crate::json::json_of(raw@) {
            None => r matches Reply::Garbled { message } && message@ == crate::json::json_error(
                raw@,
            ),
            Some(v) => if says_ok(v) {
                r matches Reply::Accepted { reply } && reply@ == v
            } else {
                r is Refused
            },
        },
{
    match parse_json(raw) {
        Err(message) => Reply::Garbled { message },
        Ok(reply) => judge(reply),
    }
}

/// Judge a reply that was read.
pub fn judge(reply: Json) -> (r: Reply)
    ensures
        if says_ok(reply@) {
            r matches Reply::Accepted { reply: v } && v@ == reply@
        } else {
            r is Refused
        },
{
    let ok: bool = match reply.get("ok") {
        Some(Json::Bool(b)) => *b,
        _ => false,
    };
    if ok {
        Reply::Accepted { reply }
    } else {
        Reply::Refused
    }
}

/// The CPUs `a..=b`.
pub open spec fn cpu_range(a: int, b: int) -> Seq<u32> {
    if a <= b {
        Seq::new((b - a + 1) as nat, |i: int| (a + i) as u32)
    } else {
        seq![]
    }
}

/// The number a list element or bound stands for.
pub open spec fn cpu_num(s: Seq<char>) -> Option<nat> {
    crate::text::parsed(
        crate::text::trim_back(crate::text::trim_front(s)),
        u32::MAX as nat,
    )
}

/// The CPUs of one element of a cpulist: a number or a range. Anything else
/// stands for none.
pub open spec fn part_cpus(s: Seq<char>) -> Seq<u32> {
    let k = crate::text::find_from(s, '-', 0);
    if k < s.len() {
        match (cpu_num(s.subrange(0, k)), cpu_num(s.subrange(k + 1, s.len() as int))) {
            (Some(a), Some(b)) => cpu_range(a as int, b as int),
            _ => seq![],
        }
    } else {
        match cpu_num(s) {
            Some(c) => seq![c as u32],
            None => seq![],
        }
    }
}

/// The CPUs of a cpulist: those of its comma-separated elements, in order.
pub open spec fn list_cpus(s: Seq<char>) -> Seq<u32>
    decreases s.len(),
{
    let k = crate::text::find_from(s, ',', 0);
    if 0 <= k < s.len() {
        part_cpus(s.subrange(0, k)) + list_cpus(s.subrange(k + 1, s.len() as int))
    } else {
        part_cpus(s)
    }
}

fn number_of(v: &Vec<char>) -> (r: Option<u32>)
    ensures
        match r {
            Some(n) => cpu_num(v@) == Some(n as nat),
            None => cpu_num(v@) is None,
        },
{
    let t = trim(v);
    match parse_number(&t, u32::MAX as u64) {
        Some(n) => Some(n as u32),
        None => None,
    }
}

fn push_part(cpus: &mut Vec<u32>, v: &Vec<char>)
    ensures
        final(cpus)@ == old(cpus)@ + part_cpus(v@),
{
    let ghost pre = cpus@;
    let k: usize = find(v, '-', 0);
    if k < v.len() {
        let lo = number_of(&part(v, 0, k));
        let hi = number_of(&part(v, k + 1, v.len()));
        match (lo, hi) {
            (Some(a), Some(b)) => {
                if a <= b {
                    let mut i: u32 = a;
                    assert(cpu_range(a as int, b as int).subrange(0, 0) =~= seq![]);
                    assert(cpus@ =~= pre + cpu_range(a as int, b as int).subrange(0, 0));
                    while i < b
                        invariant
                            a <= i <= b,
                            cpus@ == pre + cpu_range(a as int, b as int).subrange(0, i - a),
                        decreases b - i,
                    {
                        cpus.push(i);
                        i += 1;
                        assert(cpus@ =~= pre + cpu_range(a as int, b as int).subrange(0, i - a));
                    }
                    cpus.push(b);
                    assert(cpus@ =~= pre + cpu_range(a as int, b as int));
                }
            },
            _ => {},
        }
    } else {
        match number_of(v) {
            Some(c) => {
                cpus.push(c);
            },
            None => {},
        }
    }
    assert(cpus@ =~= pre + part_cpus(v@));
}

/// Expand a kernel cpulist such as `0-1,32-33` into CPU ids.
pub fn expand_cpulist(s: &str) -> (cpus: Vec<u32>)
    ensures
        cpus@ == list_cpus(s@),
{
    let v = chars_of(s);
    let mut cpus: Vec<u32> = Vec::new();
    let mut from: usize = 0;
    assert(v@.subrange(0, v@.len() as int) =~= v@);
    assert(cpus@ + list_cpus(v@) =~= list_cpus(v@));
    loop
        invariant
            from <= v.len(),
            v@ == s@,
            cpus@ + list_cpus(v@.subrange(from as int, v@.len() as int)) == list_cpus(v@),
        decreases v.len() - from,
    {
        let rest = part(&v, from, v.len());
        let ghost before = cpus@;
        let k: usize = find(&rest, ',', 0);
        if k == rest.len() {
            push_part(&mut cpus, &rest);
            return cpus;
        }
        push_part(&mut cpus, &part(&rest, 0, k));
        from = from + k + 1;
        proof {
            assert(rest@.subrange(k + 1, rest@.len() as int) =~= v@.subrange(
                from as int,
                v@.len() as int,
            ));
            assert(before + (part_cpus(rest@.subrange(0, k as int)) + list_cpus(
                v@.subrange(from as int, v@.len() as int),
            )) =~= cpus@ + list_cpus(v@.subrange(from as int, v@.len() as int)));
        }
    }
}

/// `acc` with the CPUs from `i` on, comma-separated, the active one in
/// brackets.
pub open spec fn cpus_text(acc: Seq<char>, cpus: Seq<u32>, active: Option<nat>, i: int) -> Seq<
    char,
>
    decreases cpus.len() - i,
{
    if i < 0 || i >= cpus.len() {
        acc
    } else {
        let sep = if i > 0 {
            acc + ","@
        } else {
            acc
        };
        let one = if active == Some(cpus[i] as nat) {
            sep + "["@ + crate::text::dec(cpus[i] as nat) + "]"@
        } else {
            sep + crate::text::dec(cpus[i] as nat)
        };
        cpus_text(one, cpus, active, i + 1)
    }
}

/// A queue thread's CPU placement: the whole group with the active CPU in
/// brackets, or just `active` where the group is unknown.
pub open spec fn group_text(group: Seq<char>, active: Seq<char>) -> Seq<char> {
    if group == "*"@ || group.len() == 0 {
        active
    } else {
        cpus_text(
            seq![],
            list_cpus(group),
            crate::text::parsed(active, u32::MAX as nat),
            0,
        )
    }
}

/// Render a queue thread's CPU placement.
pub fn render_cpu_group(group: &str, active: &str) -> (s: String)
    ensures
        s@ == group_text(group@, active@),
{
    if same_text(group, "*") || group.unicode_len() == 0 {
        return active.to_owned();
    }
    let act = parse_number(&chars_of(active), u32::MAX as u64);
    let cpus = expand_cpulist(group);
    let ghost want: Option<nat> = crate::text::parsed(active@, u32::MAX as nat);
    let mut out = String::new();
    let mut i: usize = 0;
    assert(out@ =~= seq![]);
    while i < cpus.len()
        invariant
            i <= cpus@.len(),
            want == (match act {
                Some(n) => Some(n as nat),
                None => None,
            }),
            cpus_text(seq![], cpus@, want, 0) == cpus_text(out@, cpus@, want, i as int),
        decreases cpus@.len() - i,
    {
        if i > 0 {
            out.append(",");
        }
        let c: u32 = cpus[i];
        let marked: bool = match act {
            Some(n) => n == c as u64,
            None => false,
        };
        if marked {
            out.append("[");
            push_dec(&mut out, c as u64);
            out.append("]");
        } else {
            push_dec(&mut out, c as u64);
        }
        i += 1;
    }
    out
}

/// The bytes of a namespace.
pub open spec fn ns_bytes(ns: crate::json::JsonV) -> u64 {
    crate::json::num(ns, "blocks"@) << ns_shift(ns)
}

/// The block shift of a namespace, no more than a shift can be.
pub open spec fn ns_shift(ns: crate::json::JsonV) -> u64 {
    if crate::json::num(ns, "block_shift"@) < 63 {
        crate::json::num(ns, "block_shift"@)
    } else {
        63
    }
}

/// A size in whole GiB where it is, else in MiB.
pub open spec fn size_text(acc: Seq<char>, bytes: u64) -> Seq<char> {
    if bytes > 0 && bytes % 0x4000_0000 == 0 {
        acc + crate::text::dec((bytes / 0x4000_0000) as nat) + " GiB"@
    } else {
        acc + crate::text::dec((bytes / 0x10_0000) as nat) + " MiB"@
    }
}

/// The line of a namespace.
pub open spec fn ns_line(acc: Seq<char>, ns: crate::json::JsonV) -> Seq<char> {
    size_text(
        acc + "    ns "@ + crate::json::compact(crate::json::at(ns, "nsid"@)) + ": "@,
        ns_bytes(ns),
    ) + " ("@ + crate::text::dec((1u64 << ns_shift(ns)) as nat) + "B blocks)\n"@
}

pub open spec fn ns_lines(acc: Seq<char>, s: Seq<crate::json::JsonV>, i: int) -> Seq<char>
    decreases s.len() - i,
{
    if i < 0 || i >= s.len() {
        acc
    } else {
        ns_lines(ns_line(acc, s[i]), s, i + 1)
    }
}

/// The lines of a subsystem.
pub open spec fn subsys_lines(acc: Seq<char>, s: Seq<crate::json::JsonV>, i: int) -> Seq<char>
    decreases s.len() - i,
{
    if i < 0 || i >= s.len() {
        acc
    } else {
        let head = acc + "  subsystem "@ + crate::json::text_or(
            crate::json::at(s[i], "nqn"@),
            "?"@,
        ) + "\n"@;
        subsys_lines(
            ns_lines(head, crate::json::items(crate::json::at(s[i], "namespaces"@)), 0),
            s,
            i + 1,
        )
    }
}

/// The lines of the ports and what can be discovered on them.
pub open spec fn port_lines(acc: Seq<char>, s: Seq<crate::json::JsonV>, i: int) -> Seq<char>
    decreases s.len() - i,
{
    if i < 0 || i >= s.len() {
        acc
    } else {
        let head = acc + "port "@ + crate::json::text_or(crate::json::at(s[i], "traddr"@), "?"@)
            + ":"@ + crate::json::text_or(crate::json::at(s[i], "trsvcid"@), "?"@) + "\n"@;
        port_lines(
            subsys_lines(head, crate::json::items(crate::json::at(s[i], "subsystems"@)), 0),
            s,
            i + 1,
        )
    }
}

/// The mark of a discovery controller.
pub open spec fn kind_text(c: crate::json::JsonV) -> Seq<char> {
    if crate::json::at(c, "discovery"@) == crate::json::JsonV::Bool(true) {
        " (discovery)"@
    } else {
        ""@
    }
}

/// The queues of a controller from `i` on, bar-separated.
pub open spec fn queue_texts(acc: Seq<char>, s: Seq<crate::json::JsonV>, i: int) -> Seq<char>
    decreases s.len() - i,
{
    if i < 0 || i >= s.len() {
        acc
    } else {
        let sep = if i > 0 {
            acc + " | "@
        } else {
            acc
        };
        let one = sep + crate::json::compact(crate::json::at(s[i], "qid"@)) + ":"@
            + crate::json::compact(crate::json::at(s[i], "depth"@)) + "@"@ + crate::json::compact(
            crate::json::at(s[i], "tid"@),
        ) + " cpus "@ + group_text(
            crate::json::text_or(crate::json::at(s[i], "group_cpus"@), "*"@),
            crate::json::text_or(crate::json::at(s[i], "cpus"@), "?"@),
        );
        queue_texts(one, s, i + 1)
    }
}

/// The namespace ids of a controller from `i` on, comma-separated.
pub open spec fn nsid_texts(acc: Seq<char>, s: Seq<crate::json::JsonV>, i: int) -> Seq<char>
    decreases s.len() - i,
{
    if i < 0 || i >= s.len() {
        acc
    } else {
        let sep = if i > 0 {
            acc + ", "@
        } else {
            acc
        };
        nsid_texts(sep + crate::json::compact(crate::json::at(s[i], "nsid"@)), s, i + 1)
    }
}

/// The block of a controller.
pub open spec fn ctrl_block(acc: Seq<char>, c: crate::json::JsonV) -> Seq<char> {
    let nss = crate::json::items(crate::json::at(c, "namespaces"@));
    let head = acc + "controller "@ + crate::json::compact(crate::json::at(c, "cntlid"@))
        + kind_text(c) + ": "@ + crate::json::text_or(crate::json::at(c, "subsysnqn"@), "?"@)
        + "\n"@ + "  host:   "@ + crate::json::text_or(crate::json::at(c, "hostnqn"@), "?"@)
        + "\n"@ + "  kato:   "@ + crate::json::compact(crate::json::at(c, "kato_ms"@)) + " ms\n"@
        + "  queues: "@;
    let queues = queue_texts(head, crate::json::items(crate::json::at(c, "queues"@)), 0) + "\n"@
        + "  ns:     "@;
    (if nss.len() == 0 {
        queues + "-"@
    } else {
        nsid_texts(queues, nss, 0)
    }) + "\n"@
}

pub open spec fn ctrl_blocks(acc: Seq<char>, s: Seq<crate::json::JsonV>, i: int) -> Seq<char>
    decreases s.len() - i,
{
    if i < 0 || i >= s.len() {
        acc
    } else {
        ctrl_blocks(ctrl_block(acc, s[i]), s, i + 1)
    }
}

/// The target's inventory and live controllers.
pub open spec fn ctrl_list_text(data: crate::json::JsonV) -> Seq<char> {
    let head = Seq::<char>::empty() + "pid "@ + crate::json::compact(crate::json::at(data, "pid"@))
        + "\n"@;
    let ports = port_lines(head, crate::json::items(crate::json::at(data, "ports"@)), 0);
    let ctrls = crate::json::items(crate::json::at(data, "controllers"@));
    if ctrls.len() == 0 {
        ports + "no controllers\n"@
    } else {
        ctrl_blocks(ports, ctrls, 0)
    }
}

fn push_ns(out: &mut String, ns: Option<&Json>)
    ensures
        final(out)@ == ns_line(old(out)@, crate::json::opt(ns)),
{
    let blocks: u64 = number(ns, "blocks");
    let raw: u64 = number(ns, "block_shift");
    let shift: u64 = if raw < 63 {
        raw
    } else {
        63
    };
    let bytes: u64 = blocks << shift;
    out.append("    ns ");
    push_opt(out, child(ns, "nsid"));
    out.append(": ");
    if bytes > 0 && bytes % 0x4000_0000 == 0 {
        push_dec(out, bytes / 0x4000_0000);
        out.append(" GiB");
    } else {
        push_dec(out, bytes / 0x10_0000);
        out.append(" MiB");
    }
    out.append(" (");
    push_dec(out, 1u64 << shift);
    out.append("B blocks)\n");
}

fn push_subsystems(out: &mut String, subs: Option<&Json>)
    ensures
        final(out)@ == subsys_lines(
            old(out)@,
            crate::json::items(crate::json::opt(subs)),
            0,
        ),
{
    let ghost s = crate::json::items(crate::json::opt(subs));
    let ghost pre = out@;
    let n: usize = count(subs);
    let mut i: usize = 0;
    while i < n
        invariant
            i <= n,
            n == s.len(),
            s == crate::json::items(crate::json::opt(subs)),
            subsys_lines(pre, s, 0) == subsys_lines(out@, s, i as int),
        decreases n - i,
    {
        let sub = item(subs, i);
        out.append("  subsystem ");
        out.append(string_or(child(sub, "nqn"), "?"));
        out.append("\n");
        let nss = child(sub, "namespaces");
        let ghost nsv = crate::json::items(crate::json::opt(nss));
        let ghost head = out@;
        let m: usize = count(nss);
        let mut k: usize = 0;
        while k < m
            invariant
                k <= m,
                m == nsv.len(),
                nsv == crate::json::items(crate::json::opt(nss)),
                ns_lines(head, nsv, 0) == ns_lines(out@, nsv, k as int),
            decreases m - k,
        {
            push_ns(out, item(nss, k));
            k += 1;
        }
        i += 1;
    }
}

fn push_ports(out: &mut String, ports: Option<&Json>)
    ensures
        final(out)@ == port_lines(old(out)@, crate::json::items(crate::json::opt(ports)), 0),
{
    let ghost s = crate::json::items(crate::json::opt(ports));
    let ghost pre = out@;
    let n: usize = count(ports);
    let mut i: usize = 0;
    while i < n
        invariant
            i <= n,
            n == s.len(),
            s == crate::json::items(crate::json::opt(ports)),
            port_lines(pre, s, 0) == port_lines(out@, s, i as int),
        decreases n - i,
    {
        let port = item(ports, i);
        out.append("port ");
        out.append(string_or(child(port, "traddr"), "?"));
        out.append(":");
        out.append(string_or(child(port, "trsvcid"), "?"));
        out.append("\n");
        push_subsystems(out, child(port, "subsystems"));
        i += 1;
    }
}

fn push_queues(out: &mut String, queues: Option<&Json>)
    ensures
        final(out)@ == queue_texts(
            old(out)@,
            crate::json::items(crate::json::opt(queues)),
            0,
        ),
{
    let ghost s = crate::json::items(crate::json::opt(queues));
    let ghost pre = out@;
    let n: usize = count(queues);
    let mut i: usize = 0;
    while i < n
        invariant
            i <= n,
            n == s.len(),
            s == crate::json::items(crate::json::opt(queues)),
            queue_texts(pre, s, 0) == queue_texts(out@, s, i as int),
        decreases n - i,
    {
        let q = item(queues, i);
        if i > 0 {
            out.append(" | ");
        }
        push_opt(out, child(q, "qid"));
        out.append(":");
        push_opt(out, child(q, "depth"));
        out.append("@");
        push_opt(out, child(q, "tid"));
        out.append(" cpus ");
        let group = render_cpu_group(
            string_or(child(q, "group_cpus"), "*"),
            string_or(child(q, "cpus"), "?"),
        );
        out.append(group.as_str());
        i += 1;
    }
}

fn push_nsids(out: &mut String, nss: Option<&Json>)
    ensures
        final(out)@ == nsid_texts(old(out)@, crate::json::items(crate::json::opt(nss)), 0),
{
    let ghost s = crate::json::items(crate::json::opt(nss));
    let ghost pre = out@;
    let n: usize = count(nss);
    let mut i: usize = 0;
    while i < n
        invariant
            i <= n,
            n == s.len(),
            s == crate::json::items(crate::json::opt(nss)),
            nsid_texts(pre, s, 0) == nsid_texts(out@, s, i as int),
        decreases n - i,
    {
        if i > 0 {
            out.append(", ");
        }
        push_opt(out, child(item(nss, i), "nsid"));
        i += 1;
    }
}

/// Append the mark of a discovery controller.
pub fn push_kind(out: &mut String, c: Option<&Json>)
    ensures
        final(out)@ == old(out)@ + kind_text(crate::json::opt(c)),
{
    match child(c, "discovery") {
        Some(Json::Bool(true)) => out.append(" (discovery)"),
        _ => out.append(""),
    }
}

/// Render the target's inventory and live controllers, one block per
/// controller.
pub fn render_ctrl_list(data: &Json) -> (text: String)
    ensures
        text@ == ctrl_list_text(data@),
{
    let d: Option<&Json> = Some(data);
    let mut out = String::new();
    assert(out@ =~= Seq::<char>::empty());
    out.append("pid ");
    push_opt(&mut out, child(d, "pid"));
    out.append("\n");
    push_ports(&mut out, child(d, "ports"));
    let ctrls = child(d, "controllers");
    let ghost s = crate::json::items(crate::json::opt(ctrls));
    let n: usize = count(ctrls);
    if n == 0 {
        out.append("no controllers\n");
        return out;
    }
    let ghost pre = out@;
    let mut i: usize = 0;
    while i < n
        invariant
            i <= n,
            n == s.len(),
            s == crate::json::items(crate::json::opt(ctrls)),
            ctrl_blocks(pre, s, 0) == ctrl_blocks(out@, s, i as int),
        decreases n - i,
    {
        let c = item(ctrls, i);
        out.append("controller ");
        push_opt(&mut out, child(c, "cntlid"));
        push_kind(&mut out, c);
        out.append(": ");
        out.append(string_or(child(c, "subsysnqn"), "?"));
        out.append("\n");
        out.append("  host:   ");
        out.append(string_or(child(c, "hostnqn"), "?"));
        out.append("\n");
        out.append("  kato:   ");
        push_opt(&mut out, child(c, "kato_ms"));
        out.append(" ms\n");
        out.append("  queues: ");
        push_queues(&mut out, child(c, "queues"));
        out.append("\n");
        out.append("  ns:     ");
        let nss = child(c, "namespaces");
        if count(nss) == 0 {
            out.append("-");
        } else {
            push_nsids(&mut out, nss);
        }
        out.append("\n");
        i += 1;
    }
    out
}

/// A size is shown in GiB where it is a whole number of them, and otherwise in
/// MiB, of which a part is dropped.
pub proof fn sizes_are_shown_in_units(acc: Seq<char>, bytes: u64)
    ensures
        exists|n: nat| #[trigger]
            crate::text::dec(n).len() >= 0 && (if bytes != 0 && bytes % 1_073_741_824 == 0 {
                bytes == n * 1_073_741_824 && size_text(acc, bytes) == acc + crate::text::dec(n)
                    + " GiB"@
            } else {
                n * 1_048_576 <= bytes < (n + 1) * 1_048_576 && size_text(acc, bytes) == acc
                    + crate::text::dec(n) + " MiB"@
            }),
{
    let n = if bytes != 0 && bytes % 1_073_741_824 == 0 {
        (bytes / 1_073_741_824) as nat
    } else {
        (bytes / 1_048_576) as nat
    };
    assert(crate::text::dec(n).len() >= 0);
}

} // verus!
