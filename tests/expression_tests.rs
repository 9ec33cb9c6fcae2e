use task_mgr::{command_equals, parse_args, ExpressionError, LeftVar, Op};

#[test]
fn parse_expr() {
    let args = "name=test1";
    let parsed = parse_args(args);
    assert!(parsed.is_ok());
}

#[test]
fn parse_error_empty() {
    let args = "";
    let parsed = parse_args(args);
    assert!(parsed.is_err());
}

#[test]
fn parse_error_empty_whitespace() {
    let args = " ";
    let parsed = parse_args(args);
    assert!(parsed.is_err());
}

#[test]
fn parse_error_empty_whitespaces() {
    let args = "  ";
    let parsed = parse_args(args);
    assert!(parsed.is_err());
}

#[test]
fn parse_like() {
    let args = "name like test1";
    let parsed = parse_args(args);
    assert!(parsed.is_ok());
}

#[test]
fn parse_both() {
    let args = "name=test1 and description like something";
    let parsed = parse_args(args);
    assert!(parsed.is_ok());
}

#[test]
fn parse_error_gibberish() {
    let args = "asdasdasd";
    let parsed = parse_args(args);
    assert!(parsed.is_err());
}

#[test]
fn parse_error_wrong_arg_right() {
    let args = "arg=";
    let parsed = parse_args(args);
    assert!(parsed.is_err());
}

#[test]
fn parse_error_wrong_arg_left() {
    let args = "=arg";
    let parsed = parse_args(args);
    assert!(parsed.is_err());
}

#[test]
fn parse_error_pseudo_arg() {
    let args = "arg!arg";
    let parsed = parse_args(args);
    assert!(parsed.is_err());
}

#[test]
fn parse_error_gibberish_with_and() {
    let args = "asdasdasd and";
    let parsed = parse_args(args);
    assert!(parsed.is_err());
}

#[test]
fn parse_error_gibberish_with_two_args() {
    let args = "asdas and dasd";
    let parsed = parse_args(args);
    assert!(parsed.is_err());
}

#[test]
fn parse_error_gibberish_with_arg() {
    let args = "asdasdasd and test=test";
    let parsed = parse_args(args);
    assert!(parsed.is_err());
}

#[test]
fn parse_error_gibberish_with_like() {
    let args = "asdasdasd like";
    let parsed = parse_args(args);
    assert!(parsed.is_err());
}

#[test]
fn parse_both_gives_two_clauses_in_order() {
    let parsed = parse_args("name=test1 and description like something").unwrap();
    assert_eq!(parsed.len(), 2);
    assert_eq!(parsed[0].0, LeftVar::Name);
    assert_eq!(parsed[0].1, Op::Equals);
    assert_eq!(parsed[0].2, "test1");
    assert_eq!(parsed[1].0, LeftVar::Description);
    assert_eq!(parsed[1].1, Op::Like);
    assert_eq!(parsed[1].2, "something");
}

#[test]
fn parse_keeps_field_and_operator_whatever_the_spacing() {
    let cases = [
        ("  date  <  2020-01-01 10:00 ", LeftVar::Date, Op::Less, "2020-01-01 10:00"),
        ("category<=misc", LeftVar::Category, Op::LeEquals, "misc"),
        ("status = true", LeftVar::Done, Op::Equals, "true"),
        ("\tname>abc\t", LeftVar::Name, Op::Greater, "abc"),
        ("description >= x y", LeftVar::Description, Op::GrEquals, "x y"),
        ("name   like   qwe", LeftVar::Name, Op::Like, "qwe"),
    ];
    for (text, field, op, value) in cases {
        let parsed = parse_args(text).unwrap();
        assert_eq!(parsed.len(), 1);
        assert_eq!(parsed[0].0, field);
        assert_eq!(parsed[0].1, op);
        assert_eq!(parsed[0].2, value);
    }
}

#[test]
fn parse_strips_one_layer_of_quotes() {
    let parsed = parse_args("name=\"qwe asd\"").unwrap();
    assert_eq!(parsed[0].2, "qwe asd");
    let parsed = parse_args("name=\"\"x\"\"").unwrap();
    assert_eq!(parsed[0].2, "\"x\"");
}

#[test]
fn parse_not_equals_is_read_as_equals_on_a_bad_field() {
    assert!(parse_args("name!=x").is_err());
}

#[test]
fn parse_errors_collapse_to_one_kind() {
    assert_eq!(parse_args("").unwrap_err(), ExpressionError::ExprParseError);
    assert_eq!(parse_args("owner=bob").unwrap_err(), ExpressionError::ExprParseError);
    assert_eq!(parse_args("name=a and x").unwrap_err(), ExpressionError::ExprParseError);
}

#[test]
fn parse_operatorless_and_blank_fail() {
    for text in ["", " ", "\t\n", "name", "just words here", "name and status"] {
        assert!(parse_args(text).is_err());
    }
}

#[test]
fn command_equals_reads_the_first_word() {
    assert_eq!(command_equals("add a, b", "add").unwrap(), true);
    assert_eq!(command_equals("   select *", "select").unwrap(), true);
    assert_eq!(command_equals("added x", "add").unwrap(), false);
    assert_eq!(command_equals("   ", "add").unwrap_err(), ExpressionError::ArgParseError);
    assert_eq!(command_equals("", "add").unwrap_err(), ExpressionError::ArgParseError);
}

#[test]
fn parse_ignores_white_space_around_the_filter() {
    for text in ["name=a and status like tru", "date>2015-09-05 00:00", "owner=x", "name=a and"] {
        let padded = format!(" \t{}\n  ", text);
        assert_eq!(parse_args(text), parse_args(&padded));
    }
}
