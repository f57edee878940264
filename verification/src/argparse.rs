//! The command-line surface: zero or more verbosity flags (`-v`, `-vv`,
//! `--verbose`, repeatable and cumulative) followed by exactly one
//! subcommand — `btc` for native units, `mbtc` for milli-units, `test` for
//! the reserved mode — and nothing else.  Arguments arrive as raw byte
//! tokens; anything that does not fit this shape is rejected.
use vstd::prelude::*;

use crate::price::views_of;

verus! {

#[derive(Clone, Copy, Debug, PartialEq, Eq, Structural)]
pub struct Btc {}

#[derive(Clone, Copy, Debug, PartialEq, Eq, Structural)]
pub struct Mbtc {}

#[derive(Clone, Copy, Debug, PartialEq, Eq, Structural)]
pub struct Test {}

/// The selected output mode.
#[derive(Clone, Copy, Debug, PartialEq, Eq, Structural)]
pub enum SubCommand {
    Btc(Btc),
    MBtc(Mbtc),
    Test(Test),
}

/// The parsed command line: a verbosity level and the selected subcommand.
#[derive(Clone, Copy, Debug, PartialEq, Eq, Structural)]
pub struct CliOpts {
    pub verbose: u8,
    pub subcmd: SubCommand,
}

/// The long verbosity flag, `--verbose`.
pub open spec fn verbose_long() -> Seq<u8> {
    seq![45u8, 45u8, 118u8, 101u8, 114u8, 98u8, 111u8, 115u8, 101u8]
}

/// How many verbosity occurrences the token `t` carries: one for
/// `--verbose`, one per `v` for `-v`, `-vv`, ...; none when `t` is not a
/// verbosity flag.
pub open spec fn vflag_count(t: Seq<u8>) -> Option<int> {
    if t == verbose_long() {
        Some(1int)
    } else if t.len() >= 2 && t[0] == 45 && (forall|k: int| 1 <= k < t.len() ==> t[k] == 118) {
        Some(t.len() - 1)
    } else {
        None
    }
}

/// The subcommand the token `t` names, if any: `btc`, `mbtc` or `test`.
pub open spec fn subcommand_of(t: Seq<u8>) -> Option<SubCommand> {
    if t == seq![98u8, 116u8, 99u8] {
        Some(SubCommand::Btc(Btc {  }))
    } else if t == seq![109u8, 98u8, 116u8, 99u8] {
        Some(SubCommand::MBtc(Mbtc {  }))
    } else if t == seq![116u8, 101u8, 115u8, 116u8] {
        Some(SubCommand::Test(Test {  }))
    } else {
        None
    }
}

/// The verbosity counter saturates at its top.
pub open spec fn sat_add(v: u8, n: int) -> u8 {
    if v + n > 255 {
        255u8
    } else {
        (v + n) as u8
    }
}

/// What parsing the tokens from `i` on yields, with `verbose` occurrences
/// seen so far: verbosity flags accumulate until a subcommand token, which
/// must be the last token; anything else fails.
pub open spec fn parse_args_from(ts: Seq<Seq<u8>>, i: int, verbose: u8) -> Option<CliOpts>
    decreases ts.len() - i,
{
    if i < 0 || i >= ts.len() {
        None
    } else {
        match vflag_count(ts[i]) {
            Some(n) => parse_args_from(ts, i + 1, sat_add(verbose, n)),
            None => match subcommand_of(ts[i]) {
                Some(sc) => if i + 1 == ts.len() {
                    Some(CliOpts { verbose, subcmd: sc })
                } else {
                    None
                },
                None => None,
            },
        }
    }
}

fn vflag_count_exec(t: &Vec<u8>) -> (r: Option<usize>)
    ensures
        (r is Some) == (vflag_count(t@) is Some),
        r matches Some(n) ==> vflag_count(t@) == Some(n as int),
{
    if t.len() == 9 && t[0] == 45 && t[1] == 45 && t[2] == 118 && t[3] == 101 && t[4] == 114
        && t[5] == 98 && t[6] == 111 && t[7] == 115 && t[8] == 101 {
        proof {
            assert(t@ =~= verbose_long());
        }
        return Some(1);
    }
    proof {
        assert(t@ != verbose_long());
    }
    if t.len() < 2 || t[0] != 45 {
        return None;
    }
    let mut k: usize = 1;
    while k < t.len()
        invariant
            1 <= k <= t@.len(),
            t@.len() >= 2,
            t@[0] == 45,
            t@ != verbose_long(),
            forall|j: int| 1 <= j < k ==> t@[j] == 118,
        decreases t@.len() - k,
    {
        if t[k] != 118 {
            return None;
        }
        k = k + 1;
    }
    Some(t.len() - 1)
}

fn subcommand_exec(t: &Vec<u8>) -> (r: Option<SubCommand>)
    ensures
        r == subcommand_of(t@),
{
    if t.len() == 3 && t[0] == 98 && t[1] == 116 && t[2] == 99 {
        proof {
            assert(t@ =~= seq![98u8, 116u8, 99u8]);
        }
        Some(SubCommand::Btc(Btc {  }))
    } else if t.len() == 4 && t[0] == 109 && t[1] == 98 && t[2] == 116 && t[3] == 99 {
        proof {
            assert(t@ =~= seq![109u8, 98u8, 116u8, 99u8]);
        }
        Some(SubCommand::MBtc(Mbtc {  }))
    } else if t.len() == 4 && t[0] == 116 && t[1] == 101 && t[2] == 115 && t[3] == 116 {
        proof {
            assert(t@ =~= seq![116u8, 101u8, 115u8, 116u8]);
        }
        Some(SubCommand::Test(Test {  }))
    } else {
        None
    }
}

fn sat_add_exec(v: u8, n: usize) -> (r: u8)
    ensures
        r == sat_add(v, n as int),
{
    if n > 255 - v as usize {
        255
    } else {
        v + n as u8
    }
}

/// Parses the raw argument tokens (the program name already removed).
/// Yields the options exactly when the arguments are verbosity flags
/// followed by one final subcommand token; anything else is rejected.
pub fn get_args(args: &Vec<Vec<u8>>) -> (r: Option<CliOpts>)
    ensures
        r == parse_args_from(views_of(args@), 0, 0),
{
    let ghost ts = views_of(args@);
    let mut verbose: u8 = 0;
    let mut i: usize = 0;
    while i < args.len()
        invariant
            i <= args@.len(),
            ts == views_of(args@),
            parse_args_from(ts, 0, 0) == parse_args_from(ts, i as int, verbose),
        decreases args@.len() - i,
    {
        proof {
            assert(ts[i as int] == args@[i as int]@);
        }
        match vflag_count_exec(&args[i]) {
            Some(n) => {
                verbose = sat_add_exec(verbose, n);
                i = i + 1;
            },
            None => {
                match subcommand_exec(&args[i]) {
                    Some(sc) => {
                        if i + 1 == args.len() {
                            return Some(CliOpts { verbose, subcmd: sc });
                        } else {
                            return None;
                        }
                    },
                    None => {
                        return None;
                    },
                }
            },
        }
    }
    None
}

} // verus!
