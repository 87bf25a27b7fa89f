use scenedsl::line_parser::parse_line;
use scenedsl::line_parser::ParserResult;

#[test]
fn test_line_parser() {
    let result = parse_line(
        "img forest.jpg pos 0.2 [0.2] [bounce 0.2 0.3] [ramp 0.2 0.3] [choose 0.2 0.3 400]",
    )
    .unwrap();
    assert!(matches!(result[0], ParserResult::String(_)));
    assert!(matches!(result[1], ParserResult::String(_)));
    assert!(matches!(result[2], ParserResult::String(_)));
    assert!(matches!(result[3], ParserResult::Scalar(_)));
    assert!(matches!(result[4], ParserResult::Scalar(_)));
    assert!(matches!(result[5], ParserResult::Bounce(_)));
    assert!(matches!(result[6], ParserResult::Ramp(_)));
    assert!(matches!(result[7], ParserResult::Choose(_)));
}

#[test]
fn round_trip_tokens() {
    let toks = parse_line("img a.jpg pos 0.2 [0.3] [bounce 0.1 0.9 10]").unwrap();
    assert_eq!(toks.len(), 6);
    match &toks[0] {
        ParserResult::String(s) => assert_eq!(s, "img"),
        _ => panic!("expected a word"),
    }
    match &toks[1] {
        ParserResult::String(s) => assert_eq!(s, "a.jpg"),
        _ => panic!("expected a word"),
    }
    match &toks[2] {
        ParserResult::String(s) => assert_eq!(s, "pos"),
        _ => panic!("expected a word"),
    }
    assert!(matches!(toks[3], ParserResult::Scalar(200_000)));
    assert!(matches!(toks[4], ParserResult::Scalar(300_000)));
    match &toks[5] {
        ParserResult::Bounce(args) => {
            assert_eq!(args, &vec![100_000, 900_000, 10_000_000]);
        }
        _ => panic!("expected a bounce specification"),
    }
}

#[test]
fn literal_forms() {
    assert!(matches!(
        parse_line("1e3").unwrap()[0],
        ParserResult::Scalar(1_000_000_000)
    ));
    assert!(matches!(
        parse_line("-0.5").unwrap()[0],
        ParserResult::Scalar(-500_000)
    ));
    assert!(matches!(
        parse_line(".5").unwrap()[0],
        ParserResult::Scalar(500_000)
    ));
    assert!(matches!(
        parse_line("+2.").unwrap()[0],
        ParserResult::Scalar(2_000_000)
    ));
    assert!(matches!(
        parse_line("0.0000009").unwrap()[0],
        ParserResult::Scalar(0)
    ));
    assert!(matches!(
        parse_line("1e30").unwrap()[0],
        ParserResult::Scalar(i64::MAX)
    ));
    assert!(matches!(
        parse_line("-1e30").unwrap()[0],
        ParserResult::Scalar(i64::MIN)
    ));
    assert!(matches!(
        parse_line("1e-30").unwrap()[0],
        ParserResult::Scalar(0)
    ));
}

#[test]
fn words_and_numbers() {
    // a span that is not wholly a literal is a word
    let toks = parse_line("2.2.jpg").unwrap();
    match &toks[0] {
        ParserResult::String(s) => assert_eq!(s, "2.2.jpg"),
        _ => panic!("expected a word"),
    }
    // exponent letters make a word only when the literal is malformed
    let toks = parse_line("1e").unwrap();
    assert!(matches!(&toks[0], ParserResult::String(_)));
}

#[test]
fn empty_line_is_empty() {
    assert_eq!(parse_line("").unwrap().len(), 0);
}

#[test]
fn empty_generator_pools() {
    let toks = parse_line("[cycle ]").unwrap();
    match &toks[0] {
        ParserResult::Cycle(args) => assert!(args.is_empty()),
        _ => panic!("expected a cycle specification"),
    }
    let toks = parse_line("[choose ]").unwrap();
    match &toks[0] {
        ParserResult::Choose(args) => assert!(args.is_empty()),
        _ => panic!("expected a choose specification"),
    }
}

#[test]
fn syntax_errors() {
    assert!(parse_line("[ramp 1").is_err());
    assert!(parse_line("[warp 1 2]").is_err());
    assert!(parse_line("a,b").is_err());
    assert!(parse_line("a  b").is_err());
    assert!(parse_line("[ramp x]").is_err());
    assert!(parse_line("[ramp]").is_err());
    assert!(parse_line("+").is_err());
}

#[test]
fn negative_exponent_literal() {
    assert!(matches!(
        parse_line("2e-1").unwrap()[0],
        ParserResult::Scalar(200_000)
    ));
    assert!(matches!(
        parse_line("[cycle 2.5E+1]").unwrap()[0],
        ParserResult::Cycle(_)
    ));
    match &parse_line("[cycle 2.5E+1]").unwrap()[0] {
        ParserResult::Cycle(args) => assert_eq!(args, &vec![25_000_000]),
        _ => panic!("expected a cycle specification"),
    }
}

#[test]
fn tokens_need_space_separation() {
    assert!(parse_line("[0.2]x").is_err());
    assert!(parse_line("a[0.2]").is_err());
    assert!(parse_line("[0.2][0.3]").is_err());
    assert!(parse_line("[0.2] [0.3]").is_ok());
}

#[test]
fn defaulted_generator_args() {
    let toks = parse_line("[ramp 0.2 0.3]").unwrap();
    match &toks[0] {
        ParserResult::Ramp(args) => assert_eq!(args, &vec![200_000, 300_000]),
        _ => panic!("expected a ramp specification"),
    }
}
