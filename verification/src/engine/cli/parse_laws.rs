//! How the arguments of a call add up, and what they ask for.
use vstd::prelude::*;

use crate::engine::cli::command::{ArgsV, CommandV};
use crate::engine::cli::error::CliErrorV;
use crate::engine::cli::parse::{asked, fresh, parsed, scan, ScanV, ScannedV};
use crate::text::Text;

verus! {

/// Whether an argument takes the next one as its value.
pub open spec fn takes_value(a: Text) -> bool {
    a == "--from"@ || a == "--out"@
}

proof fn lemma_scan_behind(args: Seq<Text>, more: Seq<Text>, i: int, st: ScanV)
    requires
        0 <= i <= args.len(),
    ensures
        match scan(args, i, st) {
            Ok(ScannedV::Rest(s)) => scan(args + more, i, st) == scan(
                args + more,
                args.len() as int,
                s,
            ),
            Ok(ScannedV::Done(c)) => scan(args + more, i, st) == scan(args, i, st),
            Err(e) => !takes_value(args.last()) ==> scan(args + more, i, st) == scan(args, i, st),
        },
    decreases args.len() - i,
{
    let all = args + more;
    if i < args.len() {
        let a = args[i];
        assert(all[i] == a);
        if a == "-h"@ || a == "--help"@ || a == "--list"@ {
        } else if a == "--analyze"@ {
            lemma_scan_behind(args, more, i + 1, ScanV { analyze: true, ..st });
        } else if a == "--keys"@ {
            lemma_scan_behind(args, more, i + 1, ScanV { keys: true, ..st });
        } else if a == "--from"@ || a == "--out"@ {
            if i + 1 < args.len() {
                assert(all[i + 1] == args[i + 1]);
                if a == "--from"@ {
                    lemma_scan_behind(
                        args,
                        more,
                        i + 2,
                        ScanV { source: Some(args[i + 1]), ..st },
                    );
                } else {
                    lemma_scan_behind(
                        args,
                        more,
                        i + 2,
                        ScanV { output: Some(args[i + 1]), ..st },
                    );
                }
            } else {
                assert(args.last() == a);
            }
        } else if "--"@.is_prefix_of(a) {
        } else {
            lemma_scan_behind(
                args,
                more,
                i + 1,
                ScanV { positionals: st.positionals.push(a), ..st },
            );
        }
    }
}

proof fn lemma_flags_differ()
    ensures
        "--analyze"@ != "--keys"@,
        "--analyze"@ != "--from"@,
        "--analyze"@ != "--out"@,
        "--analyze"@ != "--list"@,
        "--analyze"@ != "--help"@,
        "--analyze"@ != "-h"@,
        "--keys"@ != "--from"@,
        "--keys"@ != "--out"@,
        "--keys"@ != "--list"@,
        "--keys"@ != "--help"@,
        "--keys"@ != "-h"@,
        "--from"@ != "--out"@,
        "--from"@ != "--list"@,
        "--from"@ != "--help"@,
        "--from"@ != "-h"@,
        "--out"@ != "--list"@,
        "--out"@ != "--help"@,
        "--out"@ != "-h"@,
        "--list"@ != "--help"@,
        "--list"@ != "-h"@,
        "--"@.is_prefix_of("--analyze"@),
        "--"@.is_prefix_of("--keys"@),
        "--"@.is_prefix_of("--from"@),
        "--"@.is_prefix_of("--out"@),
        "--"@.is_prefix_of("--list"@),
        "--"@.is_prefix_of("--help"@),
{
    reveal_strlit("--analyze");
    reveal_strlit("--keys");
    reveal_strlit("--from");
    reveal_strlit("--out");
    reveal_strlit("--list");
    reveal_strlit("--help");
    reveal_strlit("-h");
    reveal_strlit("--");
    assert("--analyze"@[2] == 'a' && "--keys"@[2] == 'k' && "--from"@[2] == 'f');
    assert("--out"@[2] == 'o' && "--list"@[2] == 'l' && "--help"@[2] == 'h');
    assert("-h"@.len() == 2);
}

/// Behind arguments that were read to the end, a flag turns on what it names, a value
/// behind `--from` or `--out` takes the place of an earlier one, any other text counts
/// as one more argument, and `--help` and `--list` are all that is asked for. A flag that
/// lacks its value, or that nobody knows, is an error that names it.
pub proof fn law_later_arguments_add_to_earlier_ones(
    args: Seq<Text>,
    st: ScanV,
    a: Text,
    value: Text,
)
    requires
        scan(args, 0, fresh()) == Ok::<ScannedV, CliErrorV>(ScannedV::Rest(st)),
    ensures
        scan(args.push("--analyze"@), 0, fresh()) == Ok::<ScannedV, CliErrorV>(
            ScannedV::Rest(ScanV { analyze: true, ..st }),
        ),
        scan(args.push("--keys"@), 0, fresh()) == Ok::<ScannedV, CliErrorV>(
            ScannedV::Rest(ScanV { keys: true, ..st }),
        ),
        scan(args.push("--from"@).push(value), 0, fresh()) == Ok::<ScannedV, CliErrorV>(
            ScannedV::Rest(ScanV { source: Some(value), ..st }),
        ),
        scan(args.push("--out"@).push(value), 0, fresh()) == Ok::<ScannedV, CliErrorV>(
            ScannedV::Rest(ScanV { output: Some(value), ..st }),
        ),
        !("--"@.is_prefix_of(a)) && a != "-h"@ ==> scan(args.push(a), 0, fresh()) == Ok::<
            ScannedV,
            CliErrorV,
        >(ScannedV::Rest(ScanV { positionals: st.positionals.push(a), ..st })),
        parsed(args.push("--help"@)) == Ok::<CommandV, CliErrorV>(CommandV::Help),
        parsed(args.push("-h"@)) == Ok::<CommandV, CliErrorV>(CommandV::Help),
        parsed(args.push("--list"@)) == Ok::<CommandV, CliErrorV>(CommandV::ListFormats),
        takes_value(a) ==> parsed(args.push(a)) == Err::<CommandV, CliErrorV>(
            CliErrorV::Usage("`"@ + a + "` requires a value"@),
        ),
        "--"@.is_prefix_of(a) && !takes_value(a) && a != "--analyze"@ && a != "--keys"@ && a
            != "--list"@ && a != "--help"@ ==> parsed(args.push(a)) == Err::<CommandV, CliErrorV>(
            CliErrorV::Usage("unknown flag `"@ + a + "`"@),
        ),
{
    reveal_with_fuel(scan, 2);
    lemma_flags_differ();
    lemma_scan_one(args, st, a);
    lemma_scan_one(args, st, "--analyze"@);
    lemma_scan_one(args, st, "--keys"@);
    lemma_scan_one(args, st, "--help"@);
    lemma_scan_one(args, st, "-h"@);
    lemma_scan_one(args, st, "--list"@);
    lemma_scan_two(args, st, "--from"@, value);
    lemma_scan_two(args, st, "--out"@, value);
    assert(!("--"@.is_prefix_of("-h"@))) by {
        reveal_strlit("-h");
        reveal_strlit("--");
        assert("-h"@[1] == 'h' && "--"@[1] == '-');
        if "--"@.is_prefix_of("-h"@) {
            assert("-h"@.subrange(0, 2)[1] == "--"@[1]);
        }
    }
}

proof fn lemma_scan_one(args: Seq<Text>, st: ScanV, a: Text)
    requires
        scan(args, 0, fresh()) == Ok::<ScannedV, CliErrorV>(ScannedV::Rest(st)),
    ensures
        scan(args.push(a), 0, fresh()) == scan(args.push(a), args.len() as int, st),
        args.push(a)[args.len() as int] == a,
{
    lemma_scan_behind(args, seq![a], 0, fresh());
    assert(args + seq![a] =~= args.push(a));
}

proof fn lemma_scan_two(args: Seq<Text>, st: ScanV, a: Text, b: Text)
    requires
        scan(args, 0, fresh()) == Ok::<ScannedV, CliErrorV>(ScannedV::Rest(st)),
    ensures
        scan(args.push(a).push(b), 0, fresh()) == scan(
            args.push(a).push(b),
            args.len() as int,
            st,
        ),
        args.push(a).push(b)[args.len() as int] == a,
        args.push(a).push(b)[(args.len() + 1) as int] == b,
{
    lemma_scan_behind(args, seq![a, b], 0, fresh());
    assert(args + seq![a, b] =~= args.push(a).push(b));
}

/// Once help or the list was asked for, or an argument was refused for what it is, what
/// follows changes nothing.
pub proof fn law_nothing_is_read_behind_a_verdict(args: Seq<Text>, more: Seq<Text>)
    requires
        match scan(args, 0, fresh()) {
            Ok(ScannedV::Done(_)) => true,
            Ok(ScannedV::Rest(_)) => false,
            Err(_) => !takes_value(args.last()),
        },
    ensures
        parsed(args + more) == parsed(args),
{
    lemma_scan_behind(args, more, 0, fresh());
}

/// Without arguments nothing is said, and help is what is asked for.
pub proof fn law_no_arguments_ask_for_help()
    ensures
        scan(Seq::empty(), 0, fresh()) == Ok::<ScannedV, CliErrorV>(ScannedV::Rest(fresh())),
        fresh().positionals.len() == 0 && fresh().source is None && fresh().output is None,
        !fresh().analyze && !fresh().keys,
        parsed(Seq::empty()) == Ok::<CommandV, CliErrorV>(CommandV::Help),
{
}

/// A document is transformed if, and only if, there are two arguments and no report is
/// asked for; the first names the document, the second the format. A report is made if,
/// and only if, just that report is asked for, with one format at most, which is the one
/// behind `--from` before the one that stands alone. Help is shown where nothing is
/// asked for, and everything else is an error.
pub proof fn law_commands_are_what_is_asked_for(st: ScanV, args: ArgsV, format: Option<Text>)
    ensures
        asked(st) == Ok::<CommandV, CliErrorV>(CommandV::Transform(args)) <==> !st.analyze
            && !st.keys && st.positionals == seq![args.input, args.target] && args.source
            == st.source && args.output == st.output,
        asked(st) == Ok::<CommandV, CliErrorV>(CommandV::Analyze(format)) <==> st.analyze
            && !st.keys && names_format(st, format),
        asked(st) == Ok::<CommandV, CliErrorV>(CommandV::Keys(format)) <==> st.keys && !st.analyze
            && names_format(st, format),
        asked(st) == Ok::<CommandV, CliErrorV>(CommandV::Help) <==> !st.analyze && !st.keys
            && st.positionals.len() == 0,
        asked(st) != Ok::<CommandV, CliErrorV>(CommandV::ListFormats),
        asked(st) is Err ==> asked(st)->Err_0 is Usage,
{
    if !st.analyze && !st.keys && st.positionals.len() == 2 {
        assert(st.positionals =~= seq![st.positionals[0], st.positionals[1]]);
        if st.positionals == seq![args.input, args.target] {
            assert(st.positionals[0] == args.input && st.positionals[1] == args.target);
        }
    }
    if st.positionals.len() == 0 {
        assert(st.positionals =~= Seq::<Text>::empty());
    } else if st.positionals.len() == 1 {
        assert(st.positionals =~= seq![st.positionals[0]]);
    }
}

/// Whether a report is about a format, or about all of them.
pub open spec fn names_format(st: ScanV, format: Option<Text>) -> bool {
    &&& st.positionals.len() <= 1
    &&& st.source is Some ==> format == st.source
    &&& st.source is None && st.positionals.len() == 1 ==> format == Some(st.positionals[0])
    &&& st.source is None && st.positionals.len() == 0 ==> format is None
}

} // verus!
