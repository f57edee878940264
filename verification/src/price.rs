//! The transformation pipeline: decoding the headerless two-column CSV feed
//! into source records, mapping them to destination records under a symbol,
//! optionally rescaling to milli-units, and encoding the destination rows.
//! Decoding is fail-fast: the first malformed row fails the whole batch and
//! nothing is produced.
use vstd::prelude::*;

use crate::date::date_bytes;
use crate::date::date_field_wf;
use crate::date::date_of_field;
use crate::date::fmt_date;
use crate::date::lemma_date_of_field_wf;
use crate::date::parse_date;
use crate::date::Date;
use crate::number::fmt_price;
use crate::number::milli_of;
use crate::number::parse_price;
use crate::number::price_bytes;
use crate::number::price_of;
use crate::number::price_wf;
use crate::number::to_milli;
use crate::number::Price;
use crate::scan::copy_range;
use crate::scan::find_from;
use crate::scan::lemma_find_from;
use crate::scan::scan_find;

verus! {

/// Why a run failed: a row without a second column, an unreadable date, an
/// unreadable price, or the reserved mode that has no behaviour.
#[derive(Clone, Copy, Debug, PartialEq, Eq, Structural)]
pub enum Error {
    MissingColumn,
    BadDate,
    BadPrice,
    NotImplemented,
}

/// One decoded row of the source feed: a calendar date and a price.
#[derive(Clone, Copy, Debug, PartialEq, Eq, Structural)]
pub struct BlockChainRecord {
    pub date: Date,
    pub price: Price,
}

/// One row of the destination format: symbol, price and date.
#[derive(Debug)]
pub struct QuickenCsv {
    pub symbol: Vec<u8>,
    pub price: Price,
    pub date: Date,
}

/// The symbol attached in native mode.
pub open spec fn btc_symbol() -> Seq<u8> {
    seq![66u8, 84u8, 67u8]
}

/// The symbol attached in milli-unit mode.
pub open spec fn mili_symbol() -> Seq<u8> {
    seq![109u8, 105u8, 108u8, 105u8, 66u8, 84u8, 67u8]
}

pub fn btc_symbol_vec() -> (r: Vec<u8>)
    ensures
        r@ == btc_symbol(),
{
    let mut r: Vec<u8> = Vec::new();
    r.push(66);
    r.push(84);
    r.push(67);
    proof {
        assert(r@ =~= btc_symbol());
    }
    r
}

pub fn mili_symbol_vec() -> (r: Vec<u8>)
    ensures
        r@ == mili_symbol(),
{
    let mut r: Vec<u8> = Vec::new();
    r.push(109);
    r.push(105);
    r.push(108);
    r.push(105);
    r.push(66);
    r.push(84);
    r.push(67);
    proof {
        assert(r@ =~= mili_symbol());
    }
    r
}

/// `s` with one trailing carriage return removed, if it ends in one.
pub open spec fn strip_cr(s: Seq<u8>) -> Seq<u8> {
    if s.len() > 0 && s[s.len() - 1] == 13 {
        s.subrange(0, s.len() - 1)
    } else {
        s
    }
}

/// The lines of `s` from position `i` on: split at line feeds, each line
/// stripped of one trailing carriage return, empty lines skipped.
pub open spec fn lines_from(s: Seq<u8>, i: int) -> Seq<Seq<u8>>
    decreases s.len() - i,
    via lines_from_dec
{
    if i < 0 || i >= s.len() {
        Seq::empty()
    } else {
        let j = find_from(s, i, 10);
        let line = strip_cr(s.subrange(i, j));
        let rest = if j < s.len() {
            lines_from(s, j + 1)
        } else {
            Seq::empty()
        };
        if line.len() == 0 {
            rest
        } else {
            seq![line] + rest
        }
    }
}

#[via_fn]
proof fn lines_from_dec(s: Seq<u8>, i: int) {
    if 0 <= i < s.len() {
        lemma_find_from(s, i, 10);
    }
}

/// The views of a sequence of byte vectors.
pub open spec fn views_of(vs: Seq<Vec<u8>>) -> Seq<Seq<u8>> {
    Seq::new(vs.len(), |i: int| vs[i]@)
}

/// Splits `v` into its non-empty lines.
pub fn split_lines(v: &Vec<u8>) -> (r: Vec<Vec<u8>>)
    ensures
        views_of(r@) == lines_from(v@, 0),
{
    let mut out: Vec<Vec<u8>> = Vec::new();
    proof {
        assert(views_of(out@) =~= Seq::<Seq<u8>>::empty());
    }
    let mut i: usize = 0;
    while i < v.len()
        invariant
            i <= v@.len(),
            lines_from(v@, 0) == views_of(out@) + lines_from(v@, i as int),
        decreases v@.len() - i,
    {
        let j = scan_find(v, i, 10);
        let mut line = copy_range(v, i, j);
        if line.len() > 0 && line[line.len() - 1] == 13 {
            let _last = line.pop();
            proof {
                assert(line@ =~= strip_cr(v@.subrange(i as int, j as int)));
            }
        }
        proof {
            lemma_find_from(v@, i as int, 10);
            assert(line@ == strip_cr(v@.subrange(i as int, j as int)));
        }
        let ghost old_out = out@;
        if line.len() > 0 {
            out.push(line);
        }
        proof {
            let rest = if j < v@.len() {
                lines_from(v@, j + 1)
            } else {
                Seq::<Seq<u8>>::empty()
            };
            if strip_cr(v@.subrange(i as int, j as int)).len() == 0 {
                assert(views_of(out@) == views_of(old_out));
            } else {
                assert(views_of(out@) =~= views_of(old_out) + seq![
                    strip_cr(v@.subrange(i as int, j as int)),
                ]);
            }
            assert(views_of(out@) + rest =~= views_of(old_out) + lines_from(v@, i as int));
        }
        i = if j < v.len() {
            j + 1
        } else {
            j
        };
        proof {
            if i >= v@.len() {
                assert(lines_from(v@, i as int) =~= Seq::<Seq<u8>>::empty());
            }
        }
    }
    proof {
        assert(lines_from(v@, i as int) =~= Seq::<Seq<u8>>::empty());
        assert(lines_from(v@, 0) =~= views_of(out@));
    }
    out
}

/// A well-formed row: it has a second column, its first column is a
/// well-formed date field, and its second column (up to a further comma,
/// extra columns being ignored) is a well-formed price numeral.
pub open spec fn row_wf(line: Seq<u8>) -> bool {
    let c = find_from(line, 0, 44);
    let c2 = find_from(line, c + 1, 44);
    &&& c < line.len()
    &&& date_field_wf(line.subrange(0, c))
    &&& price_wf(line.subrange(c + 1, c2))
}

/// The record a well-formed row decodes to.
pub open spec fn row_record(line: Seq<u8>) -> BlockChainRecord {
    let c = find_from(line, 0, 44);
    let c2 = find_from(line, c + 1, 44);
    BlockChainRecord {
        date: date_of_field(line.subrange(0, c)),
        price: price_of(line.subrange(c + 1, c2)),
    }
}

/// The error a malformed row fails with.
pub open spec fn row_err(line: Seq<u8>) -> Error {
    let c = find_from(line, 0, 44);
    if c >= line.len() {
        Error::MissingColumn
    } else if !date_field_wf(line.subrange(0, c)) {
        Error::BadDate
    } else {
        Error::BadPrice
    }
}

/// Decodes one row.
pub fn parse_row(line: &Vec<u8>) -> (r: Result<BlockChainRecord, Error>)
    ensures
        r == (if row_wf(line@) {
            Ok::<BlockChainRecord, Error>(row_record(line@))
        } else {
            Err::<BlockChainRecord, Error>(row_err(line@))
        }),
{
    let c = scan_find(line, 0, 44);
    if c == line.len() {
        return Err(Error::MissingColumn);
    }
    let date_field = copy_range(line, 0, c);
    let date = match parse_date(&date_field) {
        Some(d) => d,
        None => {
            return Err(Error::BadDate);
        },
    };
    let c2 = scan_find(line, c + 1, 44);
    let price_field = copy_range(line, c + 1, c2);
    let price = match parse_price(&price_field) {
        Some(p) => p,
        None => {
            return Err(Error::BadPrice);
        },
    };
    Ok(BlockChainRecord { date, price })
}

/// Index of the first malformed line at or after `i`, or `ls.len()`.
pub open spec fn first_bad_from(ls: Seq<Seq<u8>>, i: int) -> int
    decreases ls.len() - i,
{
    if i < 0 || i >= ls.len() {
        ls.len() as int
    } else if !row_wf(ls[i]) {
        i
    } else {
        first_bad_from(ls, i + 1)
    }
}

/// What decoding a whole feed body yields: the records of every line, in
/// order, or the error of the first malformed line.
pub open spec fn spec_decode(body: Seq<u8>) -> Result<Seq<BlockChainRecord>, Error> {
    let ls = lines_from(body, 0);
    let fb = first_bad_from(ls, 0);
    if fb == ls.len() {
        Ok(Seq::new(ls.len(), |i: int| row_record(ls[i])))
    } else {
        Err(row_err(ls[fb]))
    }
}

/// Decodes the feed body: headerless CSV, one `date,price` row per line.
/// Yields one record per non-empty line, in input order, or fails on the
/// first malformed row with nothing decoded.
pub fn decode_records(body: &Vec<u8>) -> (r: Result<Vec<BlockChainRecord>, Error>)
    ensures
        (r is Ok) == (spec_decode(body@) is Ok),
        r matches Ok(v) ==> Ok::<Seq<BlockChainRecord>, Error>(v@) == spec_decode(body@),
        r matches Err(e) ==> Err::<Seq<BlockChainRecord>, Error>(e) == spec_decode(body@),
{
    let ls = split_lines(body);
    let ghost lsv = views_of(ls@);
    let mut out: Vec<BlockChainRecord> = Vec::new();
    let mut k: usize = 0;
    while k < ls.len()
        invariant
            k <= ls@.len(),
            lsv == views_of(ls@),
            lsv == lines_from(body@, 0),
            first_bad_from(lsv, 0) == first_bad_from(lsv, k as int),
            out@.len() == k,
            forall|j: int| 0 <= j < k ==> out@[j] == row_record(lsv[j]),
        decreases ls@.len() - k,
    {
        proof {
            assert(lsv[k as int] == ls@[k as int]@);
        }
        match parse_row(&ls[k]) {
            Ok(rec) => {
                out.push(rec);
            },
            Err(e) => {
                proof {
                    assert(first_bad_from(lsv, k as int) == k);
                }
                return Err(e);
            },
        }
        k = k + 1;
    }
    proof {
        assert(first_bad_from(lsv, 0) == lsv.len());
        assert(out@ =~= Seq::new(lsv.len(), |i: int| row_record(lsv[i])));
    }
    Ok(out)
}

/// Maps each source record to a destination record: the price and date are
/// carried over and the given symbol is attached.  Length and order are
/// preserved and no record is dropped or merged.
pub fn into_quicken_data(symbol: &Vec<u8>, prices: &Vec<BlockChainRecord>) -> (r: Vec<QuickenCsv>)
    ensures
        r@.len() == prices@.len(),
        forall|i: int|
            0 <= i < prices@.len() ==> {
                &&& #[trigger] r@[i].symbol@ == symbol@
                &&& r@[i].price == prices@[i].price
                &&& r@[i].date == prices@[i].date
            },
{
    let mut r: Vec<QuickenCsv> = Vec::new();
    let mut k: usize = 0;
    while k < prices.len()
        invariant
            k <= prices@.len(),
            r@.len() == k,
            forall|i: int|
                0 <= i < k ==> {
                    &&& #[trigger] r@[i].symbol@ == symbol@
                    &&& r@[i].price == prices@[i].price
                    &&& r@[i].date == prices@[i].date
                },
        decreases prices@.len() - k,
    {
        let sym = copy_range(symbol, 0, symbol.len());
        proof {
            assert(sym@ =~= symbol@);
        }
        r.push(QuickenCsv { symbol: sym, price: prices[k].price, date: prices[k].date });
        k = k + 1;
    }
    r
}

/// Rescales every destination record to milli-units: the price is divided
/// by one thousand and the symbol is overwritten with the milli-unit label,
/// whatever it was.  Length, order and dates are untouched.
pub fn convert_to_mbtc(prices: &Vec<QuickenCsv>) -> (r: Vec<QuickenCsv>)
    ensures
        r@.len() == prices@.len(),
        forall|i: int|
            0 <= i < prices@.len() ==> {
                &&& #[trigger] r@[i].symbol@ == mili_symbol()
                &&& r@[i].price == milli_of(prices@[i].price)
                &&& r@[i].date == prices@[i].date
            },
{
    let mut r: Vec<QuickenCsv> = Vec::new();
    let mut k: usize = 0;
    while k < prices.len()
        invariant
            k <= prices@.len(),
            r@.len() == k,
            forall|i: int|
                0 <= i < k ==> {
                    &&& #[trigger] r@[i].symbol@ == mili_symbol()
                    &&& r@[i].price == milli_of(prices@[i].price)
                    &&& r@[i].date == prices@[i].date
                },
        decreases prices@.len() - k,
    {
        r.push(
            QuickenCsv {
                symbol: mili_symbol_vec(),
                price: to_milli(&prices[k].price),
                date: prices[k].date,
            },
        );
        k = k + 1;
    }
    r
}

/// The bytes one destination record prints as: symbol as-is, the date as
/// month/day/year, the price with six decimal places, comma-separated,
/// ended by a line feed.
pub open spec fn row_bytes(q: QuickenCsv) -> Seq<u8> {
    q.symbol@ + seq![44u8] + date_bytes(q.date) + seq![44u8] + price_bytes(q.price) + seq![10u8]
}

/// The encoding of the records from `i` on.
pub open spec fn encode_from(s: Seq<QuickenCsv>, i: int) -> Seq<u8>
    decreases s.len() - i,
{
    if i < 0 || i >= s.len() {
        Seq::empty()
    } else {
        row_bytes(s[i]) + encode_from(s, i + 1)
    }
}

/// Encodes the destination records as CSV rows, in input order, with no
/// header row.
pub fn write_records(data: &Vec<QuickenCsv>) -> (out: Vec<u8>)
    requires
        forall|i: int| 0 <= i < data@.len() ==> (#[trigger] data@[i].date).wf(),
    ensures
        out@ == encode_from(data@, 0),
{
    let mut out: Vec<u8> = Vec::new();
    let mut k: usize = 0;
    while k < data.len()
        invariant
            k <= data@.len(),
            forall|i: int| 0 <= i < data@.len() ==> (#[trigger] data@[i].date).wf(),
            encode_from(data@, 0) == out@ + encode_from(data@, k as int),
        decreases data@.len() - k,
    {
        let ghost old_out = out@;
        let mut sym = copy_range(&data[k].symbol, 0, data[k].symbol.len());
        proof {
            assert(sym@ =~= data@[k as int].symbol@);
        }
        out.append(&mut sym);
        out.push(44);
        let mut date_part = fmt_date(&data[k].date);
        out.append(&mut date_part);
        out.push(44);
        let mut price_part = fmt_price(&data[k].price);
        out.append(&mut price_part);
        out.push(10);
        proof {
            assert(out@ =~= old_out + row_bytes(data@[k as int]));
            assert(old_out + row_bytes(data@[k as int]) + encode_from(data@, k + 1) =~= old_out
                + encode_from(data@, k as int));
        }
        k = k + 1;
    }
    out
}

/// One output row of the whole pipeline, straight from a source record:
/// in milli-unit mode the symbol is the milli-unit label and the price is
/// rescaled, in native mode the symbol is the native label and the price is
/// carried over.
pub open spec fn out_row_bytes(rec: BlockChainRecord, milli: bool) -> Seq<u8> {
    let sym = if milli {
        mili_symbol()
    } else {
        btc_symbol()
    };
    let pr = if milli {
        milli_of(rec.price)
    } else {
        rec.price
    };
    sym + seq![44u8] + date_bytes(rec.date) + seq![44u8] + price_bytes(pr) + seq![10u8]
}

/// The whole pipeline's output bytes for the records from `i` on.
pub open spec fn out_bytes_from(recs: Seq<BlockChainRecord>, milli: bool, i: int) -> Seq<u8>
    decreases recs.len() - i,
{
    if i < 0 || i >= recs.len() {
        Seq::empty()
    } else {
        out_row_bytes(recs[i], milli) + out_bytes_from(recs, milli, i + 1)
    }
}

proof fn lemma_encode_rows(
    qs: Seq<QuickenCsv>,
    recs: Seq<BlockChainRecord>,
    milli: bool,
    i: int,
)
    requires
        qs.len() == recs.len(),
        0 <= i,
        forall|j: int| 0 <= j < qs.len() ==> row_bytes(#[trigger] qs[j]) == out_row_bytes(
            recs[j],
            milli,
        ),
    ensures
        encode_from(qs, i) == out_bytes_from(recs, milli, i),
    decreases qs.len() - i,
{
    if i < qs.len() {
        lemma_encode_rows(qs, recs, milli, i + 1);
    }
}

/// What a full run on a fetched body yields in the given mode: the encoded
/// destination rows, or the error of the first malformed source row.
pub open spec fn spec_prices(milli: bool, body: Seq<u8>) -> Result<Seq<u8>, Error> {
    match spec_decode(body) {
        Ok(recs) => Ok(out_bytes_from(recs, milli, 0)),
        Err(e) => Err(e),
    }
}

/// Decodes the fetched body, maps every record to the destination format —
/// rescaling to milli-units when asked — and encodes the result.  Fails,
/// yielding no bytes at all, exactly when decoding fails.
#[verifier::rlimit(100)]
pub fn prices(milli: bool, body: &Vec<u8>) -> (r: Result<Vec<u8>, Error>)
    ensures
        (r is Ok) == (spec_prices(milli, body@) is Ok),
        r matches Ok(v) ==> Ok::<Seq<u8>, Error>(v@) == spec_prices(milli, body@),
        r matches Err(e) ==> Err::<Seq<u8>, Error>(e) == spec_prices(milli, body@),
{
    let recs = match decode_records(body) {
        Ok(v) => v,
        Err(e) => {
            return Err(e);
        },
    };
    proof {
        let ls = lines_from(body@, 0);
        assert forall|i: int| 0 <= i < recs@.len() implies (#[trigger] recs@[i].date).wf() by {
            assert(recs@[i] == row_record(ls[i]));
            assert(first_bad_from(ls, 0) == ls.len());
            lemma_first_bad_all_wf(ls, 0, i);
            lemma_date_of_field_wf(ls[i].subrange(0, find_from(ls[i], 0, 44)));
        }
    }
    let symbol = btc_symbol_vec();
    let base_data = into_quicken_data(&symbol, &recs);
    let ghost basev = base_data@;
    let quicken_data: Vec<QuickenCsv> = if milli {
        convert_to_mbtc(&base_data)
    } else {
        base_data
    };
    proof {
        assert forall|j: int| 0 <= j < quicken_data@.len() implies row_bytes(
            #[trigger] quicken_data@[j],
        ) == out_row_bytes(recs@[j], milli) by {
            let q = quicken_data@[j];
            assert(basev[j].symbol@ == symbol@);
            if milli {
                assert(q.symbol@ == mili_symbol());
                assert(q.price == milli_of(basev[j].price));
                assert(basev[j].price == recs@[j].price);
            } else {
                assert(q.symbol@ == btc_symbol());
                assert(q.price == recs@[j].price);
            }
            assert(q.date == recs@[j].date);
        }
        assert forall|i: int| 0 <= i < quicken_data@.len() implies (
        #[trigger] quicken_data@[i].date).wf() by {
            assert(basev[i].symbol@ == symbol@);
            if milli {
                assert(quicken_data@[i].symbol@ == mili_symbol());
            }
            assert(quicken_data@[i].date == recs@[i].date);
        }
        lemma_encode_rows(quicken_data@, recs@, milli, 0);
    }
    let out = write_records(&quicken_data);
    Ok(out)
}

/// Every line before the first bad one (in particular, every line when
/// there is none) is well-formed.
proof fn lemma_first_bad_all_wf(ls: Seq<Seq<u8>>, i: int, j: int)
    requires
        0 <= i <= j < ls.len(),
        first_bad_from(ls, i) == ls.len(),
    ensures
        row_wf(ls[j]),
    decreases ls.len() - i,
{
    if i < j {
        lemma_first_bad_all_wf(ls, i + 1, j);
    }
}

} // verus!
