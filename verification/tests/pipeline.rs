use quicken_prices::argparse::{get_args, CliOpts, SubCommand};
use quicken_prices::date::Date;
use quicken_prices::number::{parse_price, to_milli, Price};
use quicken_prices::price::{
    convert_to_mbtc, decode_records, into_quicken_data, prices, write_records, Error, QuickenCsv,
};
use quicken_prices::{plan, run};

fn opts(subcmd: SubCommand) -> CliOpts {
    CliOpts { verbose: 0, subcmd }
}

fn btc_opts() -> CliOpts {
    opts(SubCommand::Btc(quicken_prices::argparse::Btc {}))
}

fn mbtc_opts() -> CliOpts {
    opts(SubCommand::MBtc(quicken_prices::argparse::Mbtc {}))
}

fn test_opts() -> CliOpts {
    opts(SubCommand::Test(quicken_prices::argparse::Test {}))
}

fn sample_body() -> Vec<u8> {
    b"2021-01-01,100.0\n2021-01-02 00:00:00,200.5\n".to_vec()
}

#[test]
fn decode_two_rows_in_order() {
    let recs = decode_records(&sample_body()).unwrap();
    assert_eq!(recs.len(), 2);
    assert_eq!(recs[0].date, Date { year: 2021, month: 1, day: 1 });
    assert_eq!(recs[0].price, Price { neg: false, micro: 100_000_000 });
    assert_eq!(recs[1].date, Date { year: 2021, month: 1, day: 2 });
    assert_eq!(recs[1].price, Price { neg: false, micro: 200_500_000 });
}

#[test]
fn decode_handles_crlf_and_blank_lines() {
    let body = b"2021-03-04,1.5\r\n\r\n2021-03-05,2.25\n".to_vec();
    let recs = decode_records(&body).unwrap();
    assert_eq!(recs.len(), 2);
    assert_eq!(recs[0].date, Date { year: 2021, month: 3, day: 4 });
    assert_eq!(recs[1].date, Date { year: 2021, month: 3, day: 5 });
}

#[test]
fn decode_ignores_extra_columns() {
    let body = b"2021-01-01,3.5,ignored\n".to_vec();
    let recs = decode_records(&body).unwrap();
    assert_eq!(recs.len(), 1);
    assert_eq!(recs[0].price, Price { neg: false, micro: 3_500_000 });
}

#[test]
fn decode_accepts_short_date_components_and_padding() {
    let body = b"2021-1-5,1.0\n 2021-01-06 ,2.0\n".to_vec();
    let recs = decode_records(&body).unwrap();
    assert_eq!(recs.len(), 2);
    assert_eq!(recs[0].date, Date { year: 2021, month: 1, day: 5 });
    assert_eq!(recs[1].date, Date { year: 2021, month: 1, day: 6 });
}

#[test]
fn decode_empty_body_yields_no_records() {
    let recs = decode_records(&Vec::new()).unwrap();
    assert_eq!(recs.len(), 0);
}

#[test]
fn decode_rejects_missing_price_column() {
    let body = b"2021-01-01,1.0\n2021-01-02\n".to_vec();
    assert_eq!(decode_records(&body).unwrap_err(), Error::MissingColumn);
}

#[test]
fn decode_rejects_non_numeric_price() {
    let body = b"2021-01-01,abc\n".to_vec();
    assert_eq!(decode_records(&body).unwrap_err(), Error::BadPrice);
}

#[test]
fn decode_rejects_bad_date() {
    let body = b"garbage,1.0\n".to_vec();
    assert_eq!(decode_records(&body).unwrap_err(), Error::BadDate);
}

#[test]
fn decode_rejects_impossible_calendar_date() {
    assert_eq!(
        decode_records(&b"2021-02-29,1.0\n".to_vec()).unwrap_err(),
        Error::BadDate
    );
    assert!(decode_records(&b"2020-02-29,1.0\n".to_vec()).is_ok());
}

#[test]
fn mapping_preserves_length_order_and_values() {
    let recs = decode_records(&sample_body()).unwrap();
    let mapped = into_quicken_data(&b"BTC".to_vec(), &recs);
    assert_eq!(mapped.len(), recs.len());
    for (m, r) in mapped.iter().zip(recs.iter()) {
        assert_eq!(m.symbol, b"BTC".to_vec());
        assert_eq!(m.price, r.price);
        assert_eq!(m.date, r.date);
    }
}

#[test]
fn conversion_divides_by_thousand_and_relabels() {
    let rows = vec![
        QuickenCsv {
            symbol: b"BTC".to_vec(),
            price: Price { neg: false, micro: 200_500_000 },
            date: Date { year: 2021, month: 1, day: 2 },
        },
        QuickenCsv {
            symbol: b"whatever".to_vec(),
            price: Price { neg: false, micro: 100_000_000 },
            date: Date { year: 2021, month: 1, day: 1 },
        },
    ];
    let converted = convert_to_mbtc(&rows);
    assert_eq!(converted.len(), 2);
    assert_eq!(converted[0].symbol, b"miliBTC".to_vec());
    assert_eq!(converted[0].price, Price { neg: false, micro: 200_500 });
    assert_eq!(converted[0].date, rows[0].date);
    assert_eq!(converted[1].symbol, b"miliBTC".to_vec());
    assert_eq!(converted[1].price, Price { neg: false, micro: 100_000 });
}

#[test]
fn conversion_rounds_half_up() {
    assert_eq!(
        to_milli(&Price { neg: false, micro: 1_500 }),
        Price { neg: false, micro: 2 }
    );
    assert_eq!(
        to_milli(&Price { neg: false, micro: 1_499 }),
        Price { neg: false, micro: 1 }
    );
    assert_eq!(
        to_milli(&Price { neg: true, micro: 3_000 }),
        Price { neg: true, micro: 3 }
    );
}

#[test]
fn encoding_emits_fixed_format_row() {
    let rows = vec![QuickenCsv {
        symbol: b"BTC".to_vec(),
        price: Price { neg: false, micro: 42_000_100_000 },
        date: Date { year: 2021, month: 1, day: 5 },
    }];
    let out = write_records(&rows);
    assert_eq!(out, b"BTC,01/05/2021,42000.100000\n".to_vec());
}

#[test]
fn encoding_no_records_emits_nothing() {
    let out = write_records(&Vec::new());
    assert_eq!(out, Vec::<u8>::new());
}

#[test]
fn native_mode_end_to_end() {
    let out = run(&btc_opts(), &sample_body()).unwrap();
    assert_eq!(
        out,
        b"BTC,01/01/2021,100.000000\nBTC,01/02/2021,200.500000\n".to_vec()
    );
}

#[test]
fn milli_mode_end_to_end() {
    let out = run(&mbtc_opts(), &sample_body()).unwrap();
    assert_eq!(
        out,
        b"miliBTC,01/01/2021,0.100000\nmiliBTC,01/02/2021,0.200500\n".to_vec()
    );
}

#[test]
fn malformed_input_fails_whole_run_with_no_output() {
    let body = b"2021-01-01,100.0\n2021-01-02\n".to_vec();
    assert_eq!(run(&btc_opts(), &body).unwrap_err(), Error::MissingColumn);
    let body = b"2021-01-01,100.0\n2021-01-02,12x\n".to_vec();
    assert_eq!(run(&btc_opts(), &body).unwrap_err(), Error::BadPrice);
}

#[test]
fn reserved_mode_always_fails_not_implemented() {
    assert_eq!(run(&test_opts(), &sample_body()).unwrap_err(), Error::NotImplemented);
    assert_eq!(
        run(&test_opts(), &b"not,even,csv".to_vec()).unwrap_err(),
        Error::NotImplemented
    );
    assert_eq!(plan(&test_opts()).unwrap_err(), Error::NotImplemented);
    assert_eq!(plan(&btc_opts()).unwrap(), false);
    assert_eq!(plan(&mbtc_opts()).unwrap(), true);
}

#[test]
fn price_parse_rounds_seventh_digit_half_up() {
    let p = parse_price(&b"0.12345649".to_vec()).unwrap();
    assert_eq!(p, Price { neg: false, micro: 123_456 });
    let p = parse_price(&b"0.9999995".to_vec()).unwrap();
    assert_eq!(p, Price { neg: false, micro: 1_000_000 });
}

#[test]
fn price_parse_accepts_signs_and_bare_forms() {
    assert_eq!(
        parse_price(&b"-5.5".to_vec()).unwrap(),
        Price { neg: true, micro: 5_500_000 }
    );
    assert_eq!(
        parse_price(&b"+7".to_vec()).unwrap(),
        Price { neg: false, micro: 7_000_000 }
    );
    assert_eq!(
        parse_price(&b".5".to_vec()).unwrap(),
        Price { neg: false, micro: 500_000 }
    );
    assert_eq!(
        parse_price(&b"3.".to_vec()).unwrap(),
        Price { neg: false, micro: 3_000_000 }
    );
}

#[test]
fn price_parse_rejects_malformed_numerals() {
    assert!(parse_price(&b"".to_vec()).is_none());
    assert!(parse_price(&b".".to_vec()).is_none());
    assert!(parse_price(&b"1e3".to_vec()).is_none());
    assert!(parse_price(&b"1.2.3".to_vec()).is_none());
    assert!(parse_price(&b"12345678901234".to_vec()).is_none());
}

#[test]
fn negative_price_encodes_with_sign() {
    let rows = vec![QuickenCsv {
        symbol: b"BTC".to_vec(),
        price: Price { neg: true, micro: 5_500_000 },
        date: Date { year: 2021, month: 12, day: 31 },
    }];
    assert_eq!(write_records(&rows), b"BTC,12/31/2021,-5.500000\n".to_vec());
}

fn args(tokens: &[&[u8]]) -> Vec<Vec<u8>> {
    tokens.iter().map(|t| t.to_vec()).collect()
}

#[test]
fn get_args_parses_subcommands() {
    let r = get_args(&args(&[b"btc"])).unwrap();
    assert_eq!(r.verbose, 0);
    assert!(matches!(r.subcmd, SubCommand::Btc(_)));
    let r = get_args(&args(&[b"mbtc"])).unwrap();
    assert!(matches!(r.subcmd, SubCommand::MBtc(_)));
    let r = get_args(&args(&[b"test"])).unwrap();
    assert!(matches!(r.subcmd, SubCommand::Test(_)));
}

#[test]
fn get_args_counts_verbosity_occurrences() {
    let r = get_args(&args(&[b"-vv", b"--verbose", b"mbtc"])).unwrap();
    assert_eq!(r.verbose, 3);
    assert!(matches!(r.subcmd, SubCommand::MBtc(_)));
    let r = get_args(&args(&[b"-v", b"btc"])).unwrap();
    assert_eq!(r.verbose, 1);
}

#[test]
fn get_args_rejects_bad_command_lines() {
    assert!(get_args(&args(&[])).is_none());
    assert!(get_args(&args(&[b"-v"])).is_none());
    assert!(get_args(&args(&[b"btc", b"extra"])).is_none());
    assert!(get_args(&args(&[b"-x", b"btc"])).is_none());
    assert!(get_args(&args(&[b"frobnicate"])).is_none());
}
