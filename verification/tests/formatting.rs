//! Field-list rendering, value translation and repeating-group folding.
use prefix::fields::{parse_fix_msg, Field, FixMsg};
use prefix::fold::combine_repeating_groups;
use prefix::options::Options;
use prefix::render::{add_colour, format_to_string, translate_combined_values, translate_value};

fn field(tag: usize, value: &str) -> Field {
    Field { tag, value: String::from(value) }
}

fn plain_options() -> Options {
    Options {
        delimiter: String::from("\n"),
        colour: false,
        only_fix: false,
        repeating: false,
        strict: false,
        strip: false,
        summary: None,
        tag: false,
        value: false,
    }
}

#[test]
fn format_case() {
    let input = "8=FIX.4.4|1=test|55=ETH/USD|54=1|29999=50";
    let FixMsg::Partial(parsed) = parse_fix_msg(input) else {
        panic!("Should be a partial FIX message");
    };
    let flags = plain_options();
    let result = format_to_string(&parsed, &flags);
    let expected = String::from(
        "BeginString = FIX.4.4\nAccount = test\nSymbol = ETH/USD\nSide = 1\n29999 = 50\n",
    );
    assert_eq!(result, expected);
}

#[test]
fn format_args_case() {
    let input = "8=FIX.4.4|1=test|55=ETH/USD|54=1|29999=50";
    let FixMsg::Partial(parsed) = parse_fix_msg(input) else {
        panic!("Should be a partial FIX message");
    };
    let flags = Options {
        delimiter: String::from("|"),
        colour: true,
        only_fix: true,
        repeating: true,
        strict: true,
        strip: true,
        summary: None,
        tag: true,
        value: true,
    };
    let result = format_to_string(&parsed, &flags);
    let expected = String::from(
        "BeginString=FIX.4.4|Account=test|Symbol=ETH/USD|Side=Buy|29999=50|"
            .replace("|", "\x1b[33m|\x1b[0m")
            .replace("=", "\x1b[33m=\x1b[0m"),
    );
    assert_eq!(result, expected);
}

#[test]
fn value_translation_exact_rendering() {
    let fields = vec![
        field(8, "FIX.4.4"),
        field(1, "test"),
        field(55, "ETH/USD"),
        field(54, "1"),
        field(29999, "50"),
    ];
    let flags = Options {
        delimiter: String::from("|"),
        colour: false,
        only_fix: false,
        repeating: false,
        strict: false,
        strip: false,
        summary: None,
        tag: false,
        value: true,
    };
    let result = format_to_string(&fields, &flags);
    assert_eq!(
        result,
        "BeginString = FIX.4.4|Account = test|Symbol = ETH/USD|Side = Buy|29999 = 50|"
    );
}

#[test]
fn repeating_case() {
    let input = vec![
        field(8, "4.4"),
        field(55, "EUR/USD"),
        field(268, "3"),
        field(270, "1.1"),
        field(270, "1.2"),
        field(270, "1.3"),
        field(271, "1000"),
        field(271, "2500"),
        field(271, "5000"),
        field(10, "123"),
    ];
    let result = combine_repeating_groups(&input);
    let expected = vec![
        field(8, "4.4"),
        field(55, "EUR/USD"),
        field(268, "3"),
        field(270, "1.1,1.2,1.3"),
        field(271, "1000,2500,5000"),
        field(10, "123"),
    ];
    assert_eq!(result, expected);
}

#[test]
fn folding_three_values_into_one_field() {
    let input = vec![field(270, "1.1"), field(270, "1.2"), field(270, "1.3")];
    let result = combine_repeating_groups(&input);
    assert_eq!(result, vec![field(270, "1.1,1.2,1.3")]);
}

#[test]
fn folding_twice_changes_nothing() {
    let input = vec![
        field(8, "4.4"),
        field(270, "1.1"),
        field(270, "1.2"),
        field(10, "123"),
    ];
    let once = combine_repeating_groups(&input);
    let twice = combine_repeating_groups(&once);
    assert_eq!(once, twice);
}

#[test]
fn translate_value_falls_back_to_raw() {
    assert_eq!(translate_value(&field(54, "1")), "Buy");
    assert_eq!(translate_value(&field(54, "2")), "Sell");
    assert_eq!(translate_value(&field(54, "9")), "9");
    assert_eq!(translate_value(&field(29999, "X")), "X");
}

#[test]
fn translate_combined_translates_each_piece() {
    assert_eq!(translate_combined_values(&field(54, "1,2")), "Buy,Sell");
    assert_eq!(translate_combined_values(&field(54, "1,9,2")), "Buy,9,Sell");
    assert_eq!(translate_combined_values(&field(269, "0,1,2")), "Bid,Offer,Trade");
    assert_eq!(translate_combined_values(&field(270, "1.1,1.2")), "1.1,1.2");
}

#[test]
fn add_colour_wraps_only_when_enabled() {
    assert_eq!(add_colour("|", true), "\x1b[33m|\x1b[0m");
    assert_eq!(add_colour("|", false), "|");
}

#[test]
fn rendering_round_trips_through_splitting() {
    // Plain rendering (no colour, no strip, no translation, no folding) can
    // be split back into the displayed (name, value) pairs.
    let fields = vec![field(8, "FIX.4.4"), field(55, "EUR/USD"), field(10, "123")];
    let flags = Options {
        delimiter: String::from("|"),
        colour: false,
        only_fix: false,
        repeating: false,
        strict: false,
        strip: false,
        summary: None,
        tag: false,
        value: false,
    };
    let rendered = format_to_string(&fields, &flags);
    let mut pairs: Vec<(String, String)> = Vec::new();
    for segment in rendered.split('|') {
        if segment.is_empty() {
            continue;
        }
        let (name, value) = segment.split_once(" = ").expect("segment holds a separator");
        pairs.push((String::from(name), String::from(value)));
    }
    let expected = vec![
        (String::from("BeginString"), String::from("FIX.4.4")),
        (String::from("Symbol"), String::from("EUR/USD")),
        (String::from("CheckSum"), String::from("123")),
    ];
    assert_eq!(pairs, expected);
}

#[test]
fn porcelain_style_output_uses_soh_and_strip() {
    let fields = vec![field(8, "FIX.4.4"), field(35, "D"), field(10, "123")];
    let flags = Options {
        delimiter: String::from("\x01"),
        colour: false,
        only_fix: false,
        repeating: false,
        strict: false,
        strip: true,
        summary: None,
        tag: false,
        value: false,
    };
    let result = format_to_string(&fields, &flags);
    assert_eq!(result, "BeginString=FIX.4.4\x01MsgType=D\x01CheckSum=123\x01");
}
