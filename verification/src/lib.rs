//! Reshapes a fetched price history, given as headerless two-column CSV
//! (date, price), into the three-column CSV layout (symbol, date, price)
//! that an accounting-import tool accepts, optionally rescaling prices to
//! milli-units.  All parsing, mapping, conversion and encoding logic lives
//! here, verified; fetching over HTTP and writing the output file are left
//! to the surrounding binary.
use vstd::prelude::*;

pub mod argparse;
pub mod date;
pub mod number;
pub mod price;
pub mod scan;

use crate::argparse::CliOpts;
use crate::argparse::SubCommand;
use crate::price::prices;
use crate::price::spec_prices;
use crate::price::Error;

verus! {

/// What a full run yields for a subcommand and a fetched body: the encoded
/// output for the two real modes, and the unimplemented error — with no
/// part of the pipeline run — for the reserved one.
pub open spec fn spec_run(cmd: SubCommand, body: Seq<u8>) -> Result<Seq<u8>, Error> {
    match cmd {
        SubCommand::Test(_) => Err(Error::NotImplemented),
        SubCommand::Btc(_) => spec_prices(false, body),
        SubCommand::MBtc(_) => spec_prices(true, body),
    }
}

/// Which mode the options select: the milli-unit flag for the two real
/// modes, or the unimplemented error for the reserved subcommand.  The
/// caller consults this before fetching, so the reserved mode never reaches
/// any stage of the pipeline.
pub fn plan(args: &CliOpts) -> (r: Result<bool, Error>)
    ensures
        r == (match args.subcmd {
            SubCommand::Test(_) => Err::<bool, Error>(Error::NotImplemented),
            SubCommand::Btc(_) => Ok::<bool, Error>(false),
            SubCommand::MBtc(_) => Ok::<bool, Error>(true),
        }),
{
    match args.subcmd {
        SubCommand::Test(_) => Err(Error::NotImplemented),
        SubCommand::Btc(_) => Ok(false),
        SubCommand::MBtc(_) => Ok(true),
    }
}

/// Runs the whole transformation on a fetched body under the selected
/// subcommand: decode, map, optionally rescale, encode.  Fails with the
/// first decoding error, or with the unimplemented error in the reserved
/// mode, and then yields no bytes at all.
pub fn run(args: &CliOpts, body: &Vec<u8>) -> (r: Result<Vec<u8>, Error>)
    ensures
        (r is Ok) == (spec_run(args.subcmd, body@) is Ok),
        r matches Ok(v) ==> Ok::<Seq<u8>, Error>(v@) == spec_run(args.subcmd, body@),
        r matches Err(e) ==> Err::<Seq<u8>, Error>(e) == spec_run(args.subcmd, body@),
{
    match args.subcmd {
        SubCommand::Test(_) => Err(Error::NotImplemented),
        SubCommand::Btc(_) => prices(false, body),
        SubCommand::MBtc(_) => prices(true, body),
    }
}

} // verus!
