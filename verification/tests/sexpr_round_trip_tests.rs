use lib::sexpr::Sexpr;
use lib::sexpr_parse::parse;

#[test]
fn test_print_parse_round_trip() {
    let v = Sexpr::List(vec![
        Sexpr::Sym("bundle".to_string()),
        Sexpr::Str("say \"hi\" \\ bye".to_string()),
        Sexpr::Int(-42),
        Sexpr::Int(i64::MAX),
        Sexpr::List(vec![]),
        Sexpr::List(vec![Sexpr::Sym("k".to_string()), Sexpr::List(vec![Sexpr::Sym("v".to_string())])]),
    ]);
    let text = v.print();
    assert_eq!(parse(&text), Ok(v));
}

#[test]
fn test_round_trip_needs_plain_symbols() {
    // `12` as a symbol prints like an integer and reads back as one.
    let v = Sexpr::Sym("12".to_string());
    assert_eq!(parse(&v.print()), Ok(Sexpr::Int(12)));
}
