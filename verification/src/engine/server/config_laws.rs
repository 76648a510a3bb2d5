//! What the environment and the machine say of the configuration.
use vstd::prelude::*;

use crate::engine::server::config::{
    config_of, memory_of, positive, total_kilobytes, total_line, EnvV, ServerConfigV, StartErrorV,
};
use crate::text::{decimal, is_white, lines, parse_number, strip_cr, trim, words, Text};
use crate::text_laws::{
    blank, law_decimal_is_the_number, law_lines_end_at_line_feeds, law_numbers_are_read_back,
    law_trim_takes_the_white_space_around, law_words_stand_between_white_space,
};

verus! {

/// A number above zero, with white space around it or not, is what a variable stands for;
/// zero is refused.
pub proof fn law_variables_hold_positive_numbers(var: Text, a: Text, n: u64, b: Text)
    requires
        blank(a),
        blank(b),
    ensures
        n > 0 ==> positive(var, a + decimal(n as nat) + b) == Ok::<u64, StartErrorV>(n),
        n == 0 ==> positive(var, a + decimal(n as nat) + b) == Err::<u64, StartErrorV>(
            StartErrorV::Invalid {
                var,
                value: a + decimal(n as nat) + b,
                reason: "must be greater than zero"@,
            },
        ),
{
    let d = decimal(n as nat);
    lemma_decimal_is_plain(n as nat);
    law_trim_takes_the_white_space_around(a, d, b);
    law_numbers_are_read_back(n);
}

proof fn lemma_decimal_is_plain(n: nat)
    ensures
        decimal(n).len() > 0,
        forall|i: int| 0 <= i < decimal(n).len() ==> !is_white(#[trigger] decimal(n)[i]),
{
    law_decimal_is_the_number(n);
    let d = decimal(n);
    assert forall|i: int| 0 <= i < d.len() implies !is_white(#[trigger] d[i]) by {
        assert('0' <= d[i] <= '9');
    }
}

/// Whether the value of a variable can be used: it is missing, or a number above zero.
pub open spec fn usable(value: Option<Text>) -> bool {
    match value {
        None => true,
        Some(v) => match parse_number(trim(v)) {
            Some(n) => n > 0,
            None => false,
        },
    }
}

/// There is a configuration if, and only if, every variable can be used and either the
/// budget is set or the memory is known. The variables are looked at in turn: workers,
/// budget, and bytes for each byte of a body.
pub proof fn law_configuration_needs_usable_variables(
    env: EnvV,
    memory: Option<u64>,
    cores: usize,
)
    ensures
        config_of(env, memory, cores) is Ok <==> usable(env.workers) && usable(env.budget)
            && usable(env.blowup) && (env.budget is Some || memory is Some),
        !usable(env.workers) ==> refuses(
            config_of(env, memory, cores),
            "KRAB_WORKERS"@,
            env.workers,
        ),
        usable(env.workers) && !usable(env.budget) ==> refuses(
            config_of(env, memory, cores),
            "KRAB_MEM_BUDGET_BYTES"@,
            env.budget,
        ),
        usable(env.workers) && env.budget is None && memory is None ==> config_of(
            env,
            memory,
            cores,
        ) == Err::<ServerConfigV, StartErrorV>(
            StartErrorV::NoMemorySource,
        ),
        usable(env.workers) && usable(env.budget) && (env.budget is Some || memory is Some)
            && !usable(env.blowup) ==> refuses(
            config_of(env, memory, cores),
            "KRAB_MEM_BLOWUP"@,
            env.blowup,
        ),
{
}

/// Whether a configuration is refused for the value of a variable.
pub open spec fn refuses(
    r: Result<ServerConfigV, StartErrorV>,
    name: Text,
    given: Option<Text>,
) -> bool {
    r matches Err(StartErrorV::Invalid { var, value, .. }) && var == name && Some(value) == given
}

/// Each part of a configuration is what its variable says, and without the variable: one
/// worker for each core, half of the memory, seven bytes for each byte of a body, and
/// port 8080 on every address.
pub proof fn law_configuration_follows_the_environment(
    env: EnvV,
    memory: Option<u64>,
    cores: usize,
)
    requires
        config_of(env, memory, cores) is Ok,
        env.workers matches Some(v) ==> parse_number(trim(v))->0 <= usize::MAX,
    ensures
        ({
            let c = config_of(env, memory, cores)->Ok_0;
            &&& env.workers matches Some(v) ==> parse_number(trim(v)) == Some(c.workers as u64)
            &&& env.workers is None ==> c.workers == cores
            &&& env.budget matches Some(v) ==> parse_number(trim(v)) == Some(c.mem_budget_bytes)
            &&& env.budget is None ==> 2 * c.mem_budget_bytes <= memory->0 <= 2
                * c.mem_budget_bytes + 1
            &&& env.blowup matches Some(v) ==> parse_number(trim(v)) == Some(c.mem_blowup)
            &&& env.blowup is None ==> c.mem_blowup == 7
            &&& env.addr matches Some(a) ==> c.addr == a
            &&& env.addr is None ==> c.addr == "0.0.0.0:8080"@
        }),
{
}

/// The limit of the cgroup is the memory, whatever else is known; where it is no number,
/// as where there is no limit, `/proc/meminfo` is asked.
pub proof fn law_cgroup_limit_comes_first(n: u64, line: Text, meminfo: Option<Text>)
    ensures
        memory_of(Some(decimal(n as nat) + "\n"@), meminfo) == Some(n),
        parse_number(trim(line)) is None ==> memory_of(Some(line), meminfo) == memory_of(
            None,
            meminfo,
        ),
        memory_of(None, None) is None,
{
    let d = decimal(n as nat);
    let none = Seq::<char>::empty();
    lemma_decimal_is_plain(n as nat);
    reveal_strlit("\n");
    assert(blank("\n"@));
    law_trim_takes_the_white_space_around(none, d, "\n"@);
    assert(none + d + "\n"@ =~= d + "\n"@);
    law_numbers_are_read_back(n);
}

/// The line of `/proc/meminfo` with the total memory.
pub open spec fn total_text(gap: Text, kilobytes: u64) -> Text {
    "MemTotal:"@ + gap + decimal(kilobytes as nat) + " "@ + "kB"@
}

/// The total memory is on the line that begins with its name, whatever lines stand before
/// it that do not and whatever follows; it is given in units of 1024 bytes.
pub proof fn law_total_memory_is_read(before: Text, gap: Text, kilobytes: u64, rest: Text)
    requires
        blank(gap),
        gap.len() > 0,
        !gap.contains('\n'),
        kilobytes * 1024 <= u64::MAX,
        !before.contains('\n'),
        !("MemTotal:"@.is_prefix_of(strip_cr(before))),
    ensures
        memory_of(None, Some(total_text(gap, kilobytes) + "\n"@ + rest)) == Some(
            (kilobytes * 1024) as u64,
        ),
        total_kilobytes(before + "\n"@ + rest) == total_kilobytes(rest),
{
    let name = "MemTotal:"@;
    let d = decimal(kilobytes as nat);
    let line = total_text(gap, kilobytes);
    lemma_decimal_is_plain(kilobytes as nat);
    law_decimal_is_the_number(kilobytes as nat);
    reveal_strlit("MemTotal:");
    reveal_strlit(" ");
    reveal_strlit("kB");
    reveal_strlit("\n");
    let none = Seq::<char>::empty();
    // The words of the line.
    law_words_stand_between_white_space(none, name);
    assert(none + name =~= name);
    law_words_stand_between_white_space(name, gap);
    let t1 = name + gap;
    assert(t1.last() == gap.last());
    assert(is_white(gap[gap.len() - 1]));
    law_words_stand_between_white_space(t1, d);
    let t2 = t1 + d;
    law_words_stand_between_white_space(t2, " "@);
    let t3 = t2 + " "@;
    law_words_stand_between_white_space(t3, "kB"@);
    assert(t3 + "kB"@ =~= line);
    assert(words(line) =~= seq![name, d, "kB"@]);
    law_numbers_are_read_back(kilobytes);
    // The lines of the text.
    assert forall|i: int| 0 <= i < line.len() implies line[i] != '\n' by {
        if i < name.len() {
            assert(line[i] == name[i]);
        } else if i < t1.len() {
            assert(line[i] == gap[i - name.len()]);
        } else if i < t2.len() {
            assert(line[i] == d[i - t1.len()]);
            assert(!is_white(d[i - t1.len()]));
        }
    }
    assert(!line.contains('\n'));
    assert(line.last() == 'B');
    assert(strip_cr(line) == line);
    law_lines_end_at_line_feeds(line, rest);
    let all = lines(line + "\n"@ + rest);
    assert(all[0] == line);
    assert(name.is_prefix_of(line));
    assert(total_line(all, 0) == 0);
    // A line in front that names something else.
    law_lines_end_at_line_feeds(before, rest);
    let more = lines(rest);
    let whole = seq![strip_cr(before)] + more;
    assert(lines(before + "\n"@ + rest) == whole);
    assert(whole[0] == strip_cr(before));
    lemma_total_behind(strip_cr(before), more, 0);
    assert(total_line(whole, 0) == total_line(whole, 1));
    lemma_total_line(more, 0);
    let k = total_line(more, 0);
    if k < more.len() {
        assert(whole[k + 1] == more[k]);
    }
}

proof fn lemma_total_line(all: Seq<Text>, i: int)
    requires
        0 <= i <= all.len(),
    ensures
        i <= total_line(all, i) <= all.len(),
    decreases all.len() - i,
{
    if i < all.len() && !("MemTotal:"@.is_prefix_of(all[i])) {
        lemma_total_line(all, i + 1);
    }
}

proof fn lemma_total_behind(first: Text, more: Seq<Text>, i: int)
    requires
        0 <= i <= more.len(),
    ensures
        total_line(seq![first] + more, i + 1) == total_line(more, i) + 1,
    decreases more.len() - i,
{
    if i < more.len() {
        assert((seq![first] + more)[i + 1] == more[i]);
        if !("MemTotal:"@.is_prefix_of(more[i])) {
            lemma_total_behind(first, more, i + 1);
        }
    }
}

} // verus!
