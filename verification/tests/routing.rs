//! Summary rendering, tag translation on plain lines, and per-line routing.
use prefix::fields::Field;
use prefix::options::Options;
use prefix::router::{parse_tags, run, RouteResult};
use prefix::summary::{check_msg_types, format_to_summary};

fn field(tag: usize, value: &str) -> Field {
    Field { tag, value: String::from(value) }
}

fn options_with(summary: Option<&str>) -> Options {
    Options {
        delimiter: String::from("\n"),
        colour: false,
        only_fix: false,
        repeating: false,
        strict: false,
        strip: false,
        summary: summary.map(String::from),
        tag: false,
        value: false,
    }
}

#[test]
fn summary_case() {
    let input = vec![
        field(8, "4.4"),
        field(35, "D"),
        field(55, "EUR/USD"),
        field(10, "123"),
    ];
    let flags = options_with(Some("for 55"));
    let result = format_to_summary(&input, &flags);
    assert_eq!(result, "NewOrderSingle for EUR/USD");
}

#[test]
fn summary_respects_token_boundaries() {
    // Tag 5 must not be substituted inside the literal "55".
    let input = vec![field(5, "zzz"), field(55, "EUR/USD")];
    let flags = options_with(Some("for 55"));
    let result = format_to_summary(&input, &flags);
    assert_eq!(result, "for EUR/USD");
}

#[test]
fn summary_default_template_is_message_type() {
    let input = vec![field(35, "8"), field(55, "EUR/USD")];
    let flags = options_with(Some("35"));
    let result = format_to_summary(&input, &flags);
    assert_eq!(result, "ExecutionReport 8");
}

#[test]
fn check_msg_types_spots_unknown_codes() {
    assert!(check_msg_types(&vec![field(35, "D"), field(55, "x")]));
    assert!(!check_msg_types(&vec![field(35, "ZZ")]));
    assert!(check_msg_types(&vec![field(55, "x")]));
}

#[test]
fn tag_case() {
    let input = "symbol? 55";
    let parsed = parse_tags(input);
    assert_eq!(parsed, "symbol? Symbol");
    let input = "54,11,8";
    let parsed = parse_tags(input);
    assert_eq!(parsed, "Side,ClOrdID,BeginString");
}

#[test]
fn tag_translation_is_word_bounded() {
    assert_eq!(parse_tags("x55"), "x55");
    assert_eq!(parse_tags("55x"), "55x");
    assert_eq!(parse_tags("55 x55 55"), "Symbol x55 Symbol");
    // Unknown and oversized numbers stay as they are.
    assert_eq!(parse_tags("29999"), "29999");
    assert_eq!(parse_tags("99999999999999999999999999"), "99999999999999999999999999");
}

#[test]
fn router_renders_full_messages() {
    let flags = options_with(None);
    let out = run("8=4.4|55=EUR/USD|10=123", false, &flags);
    assert_eq!(
        out,
        RouteResult::Print(String::from(
            "BeginString = 4.4\nSymbol = EUR/USD\nCheckSum = 123\n\n"
        ))
    );
}

#[test]
fn router_suppresses_trailing_newline_delimiter_on_last_line() {
    let flags = options_with(None);
    let out = run("8=4.4|10=123", true, &flags);
    assert_eq!(
        out,
        RouteResult::Print(String::from("BeginString = 4.4\nCheckSum = 123\n"))
    );
}

#[test]
fn router_strict_treats_partial_as_plain_text() {
    let mut flags = options_with(None);
    flags.strict = true;
    let out = run("55=EUR/USD", false, &flags);
    assert_eq!(out, RouteResult::Print(String::from("55=EUR/USD\n")));
}

#[test]
fn router_only_fix_drops_plain_lines() {
    let mut flags = options_with(None);
    flags.only_fix = true;
    assert_eq!(run("just a log line", false, &flags), RouteResult::Skip);
    flags.strict = true;
    assert_eq!(run("55=EUR/USD", false, &flags), RouteResult::Skip);
}

#[test]
fn router_translates_tags_on_plain_lines() {
    let mut flags = options_with(None);
    flags.tag = true;
    let out = run("symbol? 55", false, &flags);
    assert_eq!(out, RouteResult::Print(String::from("symbol? Symbol\n")));
}

#[test]
fn router_reports_oversized_tags() {
    let flags = options_with(None);
    let out = run("99999999999999999999999999=x", false, &flags);
    assert_eq!(out, RouteResult::BadTag);
}

#[test]
fn router_reports_unknown_message_types_in_summaries() {
    let flags = options_with(Some("35"));
    let out = run("8=4.4|35=ZZ|10=123", false, &flags);
    assert_eq!(out, RouteResult::BadMsgType);
}

#[test]
fn router_renders_summaries_with_newline() {
    let flags = options_with(Some("for 55"));
    let out = run("8=4.4|35=D|55=EUR/USD|10=123", false, &flags);
    assert_eq!(
        out,
        RouteResult::Print(String::from("NewOrderSingle for EUR/USD\n"))
    );
}

#[test]
fn summary_with_empty_template_keeps_only_the_prefix() {
    let input = vec![field(35, "D"), field(55, "EUR/USD")];
    let flags = options_with(Some(""));
    let result = format_to_summary(&input, &flags);
    assert_eq!(result, "NewOrderSingle ");
}
