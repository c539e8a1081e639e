use psc::err::RuntimeError;
use psc::eval::Env;
use psc::eval::FloatOps;
use psc::eval::Io;
use psc::eval::PscObject;
use psc::eval::run;
use psc::lex::lex;
use psc::lex::LexerToken;
use psc::lex::Keyword;
use psc::lex::Punctuation;
use psc::parse::parse;
use psc::eval::Stmt;

struct F64Host;

impl FloatOps for F64Host {
    fn from_int(&self, x: i64) -> u64 {
        (x as f64).to_bits()
    }
    fn add(&self, a: u64, b: u64) -> u64 {
        (f64::from_bits(a) + f64::from_bits(b)).to_bits()
    }
    fn sub(&self, a: u64, b: u64) -> u64 {
        (f64::from_bits(a) - f64::from_bits(b)).to_bits()
    }
    fn mul(&self, a: u64, b: u64) -> u64 {
        (f64::from_bits(a) * f64::from_bits(b)).to_bits()
    }
    fn div(&self, a: u64, b: u64) -> u64 {
        (f64::from_bits(a) / f64::from_bits(b)).to_bits()
    }
    fn rem(&self, a: u64, b: u64) -> u64 {
        (f64::from_bits(a) % f64::from_bits(b)).to_bits()
    }
    fn floor(&self, a: u64) -> u64 {
        f64::from_bits(a).floor().to_bits()
    }
    fn is_lt(&self, a: u64, b: u64) -> bool {
        f64::from_bits(a) < f64::from_bits(b)
    }
    fn is_gt(&self, a: u64, b: u64) -> bool {
        f64::from_bits(a) > f64::from_bits(b)
    }
    fn is_eq(&self, a: u64, b: u64) -> bool {
        f64::from_bits(a) == f64::from_bits(b)
    }
    fn from_literal(&self, s: &str) -> u64 {
        s.parse::<f64>().unwrap_or(f64::NAN).to_bits()
    }
    fn parse_float(&self, s: &str) -> Option<u64> {
        s.parse::<f64>().ok().map(|f| f.to_bits())
    }
    fn to_text(&self, a: u64) -> String {
        format!("{}", f64::from_bits(a))
    }
}

fn run_with(src: &str, inputs: Vec<&str>, env: &mut Env) -> (Result<(), RuntimeError>, Vec<String>) {
    let toks = lex(src).expect("lexing failed");
    let stmts = parse(toks).expect("parsing failed");
    let ins: Vec<String> = inputs.into_iter().map(|s| s.to_string()).collect();
    let mut io = Io::new(ins);
    let r = run(&stmts, &F64Host, env, &mut io, u64::MAX);
    (r, io.outs)
}

fn run_prog(src: &str, inputs: Vec<&str>) -> (Result<(), RuntimeError>, Vec<String>) {
    let mut env = Env::new();
    run_with(src, inputs, &mut env)
}

fn outputs(src: &str) -> Vec<String> {
    let (r, outs) = run_prog(src, vec![]);
    assert!(r.is_ok(), "program failed: {:?}", r.err().map(|e| e.msg));
    outs
}

#[test]
fn true_division_of_integers() {
    assert_eq!(outputs("OUTPUT 7 / 2"), vec!["3.5"]);
    assert_eq!(outputs("OUTPUT 1 / 0"), vec!["inf"]);
    assert_eq!(outputs("OUTPUT 0 - 7 / 2"), vec!["-3.5"]);
}

#[test]
fn floor_division_of_integers() {
    assert_eq!(outputs("OUTPUT 7 div 2"), vec!["3"]);
    assert_eq!(outputs("X = 0 - 7 OUTPUT X div 2"), vec!["-4"]);
    assert_eq!(outputs("OUTPUT 9 div 3"), vec!["3"]);
}

#[test]
fn input_classification() {
    let mut env = Env::new();
    let (r, _) = run_with("INPUT A INPUT B INPUT C INPUT D INPUT E", vec![
        "123\n",
        "1.5\n",
        "true\n",
        "false\n",
        "  hello there \n",
    ], &mut env);
    assert!(r.is_ok());
    assert!(matches!(env.get("A"), Some(PscObject::IntT(123))));
    match env.get("B") {
        Some(PscObject::FloatT(b)) => assert_eq!(f64::from_bits(b), 1.5),
        other => panic!("expected float, got {:?}", other),
    }
    assert!(matches!(env.get("C"), Some(PscObject::BoolT(true))));
    assert!(matches!(env.get("D"), Some(PscObject::BoolT(false))));
    match env.get("E") {
        Some(PscObject::StringT(s)) => assert_eq!(s, "  hello there \n"),
        other => panic!("expected text, got {:?}", other),
    }
}

#[test]
fn input_trims_before_classifying() {
    let mut env = Env::new();
    let (r, _) = run_with("INPUT N", vec!["  42 \n"], &mut env);
    assert!(r.is_ok());
    assert!(matches!(env.get("N"), Some(PscObject::IntT(42))));
}

#[test]
fn input_past_end_fails() {
    let (r, outs) = run_prog("INPUT X", vec![]);
    assert_eq!(r.unwrap_err().msg, "End of input");
    assert!(outs.is_empty());
}

#[test]
fn conditional_three_way() {
    let src = "IF X > 0 THEN OUTPUT \"pos\" ELSE IF X < 0 THEN OUTPUT \"neg\" ELSE OUTPUT \"zero\" END IF";
    let mut env = Env::new();
    env.insert("X".to_string(), PscObject::IntT(0));
    let (r, outs) = run_with(src, vec![], &mut env);
    assert!(r.is_ok());
    assert_eq!(outs, vec!["zero"]);

    let mut env = Env::new();
    env.insert("X".to_string(), PscObject::IntT(5));
    let (r, outs) = run_with(src, vec![], &mut env);
    assert!(r.is_ok());
    assert_eq!(outs, vec!["pos"]);

    let mut env = Env::new();
    env.insert("X".to_string(), PscObject::IntT(-3));
    let (r, outs) = run_with(src, vec![], &mut env);
    assert!(r.is_ok());
    assert_eq!(outs, vec!["neg"]);
}

#[test]
fn counting_loop_runs_inclusive_range() {
    let src = "LOOP I FROM 1 TO 3 OUTPUT I END LOOP";
    let mut env = Env::new();
    let (r, outs) = run_with(src, vec![], &mut env);
    assert!(r.is_ok());
    assert_eq!(outs, vec!["1", "2", "3"]);
    assert!(matches!(env.get("I"), Some(PscObject::IntT(3))));
}

#[test]
fn counting_loop_non_integer_bounds_do_nothing() {
    let src = "LOOP I FROM 1 TO \"x\" OUTPUT I END LOOP";
    let mut env = Env::new();
    let (r, outs) = run_with(src, vec![], &mut env);
    assert!(r.is_ok());
    assert!(outs.is_empty());
    assert!(matches!(env.get("I"), Some(PscObject::IntT(0))));
}

#[test]
fn unbound_identifier_fails() {
    let (r, outs) = run_prog("OUTPUT UNDEFINED", vec![]);
    assert_eq!(r.unwrap_err().msg, "Unknown identifier: UNDEFINED");
    assert!(outs.is_empty());
}

#[test]
fn text_concatenation() {
    assert_eq!(outputs("OUTPUT \"AB\" + \"CD\""), vec!["ABCD"]);
}

#[test]
fn mixed_addition_widens_to_float() {
    let mut env = Env::new();
    let (r, _) = run_with("X = 1 + 2.0", vec![], &mut env);
    assert!(r.is_ok());
    match env.get("X") {
        Some(PscObject::FloatT(b)) => assert_eq!(f64::from_bits(b), 3.0),
        other => panic!("expected float, got {:?}", other),
    }
}

#[test]
fn integer_equals_boolean_fails() {
    let (r, _) = run_prog("X = 1 == TRUE", vec![]);
    assert_eq!(r.unwrap_err().msg, "Mismatched types");
}

#[test]
fn lowercase_identifier_is_a_lex_error() {
    let e = lex("myVar").unwrap_err();
    assert_eq!(e.msg, "Invalid identifier: myVar");
}

#[test]
fn keywords_lex_case_insensitively() {
    let a = lex("IF").unwrap();
    let b = lex("If").unwrap();
    let c = lex("if").unwrap();
    assert_eq!(a, b);
    assert_eq!(b, c);
    assert_eq!(a, vec![LexerToken::Keyword(Keyword::If)]);
}

#[test]
fn from_identifier_matches_table() {
    assert_eq!(LexerToken::from_identifier("loop"), Some(LexerToken::Keyword(Keyword::Loop)));
    assert_eq!(
        LexerToken::from_identifier("div"),
        Some(LexerToken::Punctuation(Punctuation::FloorDiv))
    );
    assert_eq!(LexerToken::from_identifier("true"), Some(LexerToken::BoolLit(true)));
    assert_eq!(LexerToken::from_identifier("banana"), None);
}

#[test]
fn operator_precedence_levels() {
    assert_eq!(Punctuation::Assign.precedence(), 0);
    assert_eq!(Punctuation::Equals.precedence(), 1);
    assert_eq!(Punctuation::GE.precedence(), 1);
    assert_eq!(Punctuation::Plus.precedence(), 2);
    assert_eq!(Punctuation::Minus.precedence(), 2);
    assert_eq!(Punctuation::Mul.precedence(), 3);
    assert_eq!(Punctuation::Div.precedence(), 3);
    assert_eq!(Punctuation::FloorDiv.precedence(), 3);
    assert_eq!(Punctuation::Mod.precedence(), 3);
}

#[test]
fn precedence_in_expressions() {
    assert_eq!(outputs("OUTPUT 1 + 2 * 3"), vec!["7"]);
    assert_eq!(outputs("OUTPUT 2 * 3 + 1"), vec!["7"]);
}

#[test]
fn operators_are_left_associative() {
    assert_eq!(outputs("OUTPUT 10 - 3 - 4"), vec!["3"]);
    assert_eq!(outputs("OUTPUT 100 / 10 / 2"), vec!["5"]);
}

#[test]
fn while_loop_counts() {
    let src = "N = 0 LOOP WHILE N < 3 OUTPUT N N = N + 1 END LOOP";
    assert_eq!(outputs(src), vec!["0", "1", "2"]);
}

#[test]
fn until_loop_counts() {
    let src = "N = 0 LOOP UNTIL N == 3 OUTPUT N N = N + 1 END LOOP";
    assert_eq!(outputs(src), vec!["0", "1", "2"]);
}

#[test]
fn integer_mod_and_float_mod() {
    assert_eq!(outputs("OUTPUT 7 mod 3"), vec!["1"]);
    assert_eq!(outputs("OUTPUT 7.5 mod 2"), vec!["1"]);
    assert_eq!(outputs("OUTPUT 7.5 mod 2.5"), vec!["0"]);
}

#[test]
fn integer_mod_by_zero_fails() {
    let (r, _) = run_prog("OUTPUT 1 mod 0", vec![]);
    assert_eq!(r.unwrap_err().msg, "Division by zero");
}

#[test]
fn non_boolean_condition_in_if_fails() {
    let (r, _) = run_prog("IF 1 THEN OUTPUT \"x\" END IF", vec![]);
    assert_eq!(r.unwrap_err().msg, "if expression not bool type");
}

#[test]
fn boolean_output_forms() {
    assert_eq!(outputs("OUTPUT TRUE"), vec!["true"]);
    assert_eq!(outputs("OUTPUT FALSE"), vec!["false"]);
    assert_eq!(outputs("OUTPUT 1 < 2"), vec!["true"]);
    assert_eq!(outputs("OUTPUT 1.5 >= 2"), vec!["false"]);
}

#[test]
fn string_literals_keep_their_characters() {
    let toks = lex("\"a b\tc\"").unwrap();
    assert_eq!(toks, vec![LexerToken::StrLit("a b\tc".to_string())]);
}

#[test]
fn unterminated_string_fails() {
    let e = lex("OUTPUT \"oops").unwrap_err();
    assert_eq!(e.msg, "Failed to parse string literal");
}

#[test]
fn malformed_float_fails() {
    let e = lex("OUTPUT 1.2.3").unwrap_err();
    assert_eq!(e.msg, "Malformed float literal");
}

#[test]
fn oversized_int_literal_fails() {
    let e = lex("OUTPUT 9223372036854775808").unwrap_err();
    assert_eq!(e.msg, "Failed to parse int literal");
    let toks = lex("OUTPUT 9223372036854775807").unwrap();
    assert_eq!(toks[1], LexerToken::IntLit(i64::MAX));
}

#[test]
fn unknown_character_fails() {
    let e = lex("OUTPUT €").unwrap_err();
    assert_eq!(e.msg, "Unknow char: '€'");
    let e = lex("OUTPUT ,").unwrap_err();
    assert_eq!(e.msg, "Invalid punctuation: ,");
}

#[test]
fn two_character_operators_lex_with_lookahead() {
    let toks = lex("A >= B <= C == D").unwrap();
    assert_eq!(toks[1], LexerToken::Punctuation(Punctuation::GE));
    assert_eq!(toks[3], LexerToken::Punctuation(Punctuation::LE));
    assert_eq!(toks[5], LexerToken::Punctuation(Punctuation::Equals));
}

#[test]
fn structural_errors_from_parser() {
    let bad = |src: &str| parse(lex(src).unwrap()).unwrap_err().msg;
    assert_eq!(bad("OUTPUT"), "Failed to parse atom");
    assert_eq!(bad("INPUT 5"), "Failed to parse input stmt");
    assert_eq!(bad("IF TRUE OUTPUT \"x\" END IF"), "Failed to parse if stmt");
    assert_eq!(bad("LOOP WHILE TRUE OUTPUT \"x\" END IF"), "Failed to parse while stmt");
    assert_eq!(bad("LOOP I TO 3 END LOOP"), "Failed to parse 'from' in for stmt");
    assert_eq!(bad("LOOP I FROM 1 UNTIL 3 END LOOP"), "Failed to parse 'to' in for stmt");
    assert_eq!(bad("THEN"), "Failed to parse stmt");
    assert_eq!(bad("X 5"), "Failed to parse stmt");
    assert_eq!(bad("LOOP + 1"), "Failed to parse loop stmt");
}

#[test]
fn assignment_overwrites_and_reads_back() {
    let src = "X = 2 X = X * 10 OUTPUT X";
    assert_eq!(outputs(src), vec!["20"]);
}

#[test]
fn nested_loops_share_the_environment() {
    let src = "LOOP I FROM 1 TO 2 LOOP J FROM 1 TO 2 OUTPUT I * 10 + J END LOOP END LOOP";
    assert_eq!(outputs(src), vec!["11", "12", "21", "22"]);
}

#[test]
fn empty_program_runs() {
    let (r, outs) = run_prog("", vec![]);
    assert!(r.is_ok());
    assert!(outs.is_empty());
}

#[test]
fn output_stays_before_a_later_error() {
    let (r, outs) = run_prog("OUTPUT \"one\" OUTPUT MISSING", vec![]);
    assert_eq!(r.unwrap_err().msg, "Unknown identifier: MISSING");
    assert_eq!(outs, vec!["one"]);
}

#[test]
fn string_equality_comparison() {
    assert_eq!(outputs("OUTPUT \"ab\" == \"ab\""), vec!["true"]);
    assert_eq!(outputs("OUTPUT \"ab\" == \"cd\""), vec!["false"]);
}

#[test]
fn float_literal_text_reaches_evaluation() {
    assert_eq!(outputs("OUTPUT 2.5 + 0.25"), vec!["2.75"]);
    assert_eq!(outputs("OUTPUT 1. + 1"), vec!["2"]);
}

#[test]
fn negative_counting_range_is_empty() {
    let src = "LOOP I FROM 3 TO 1 OUTPUT I END LOOP OUTPUT \"done\"";
    assert_eq!(outputs(src), vec!["done"]);
}

#[test]
fn single_statement_through_stmt_eval() {
    let toks = lex("X = 2 + 3").unwrap();
    let stmts = parse(toks).unwrap();
    let mut env = Env::new();
    let mut io = Io::new(vec![]);
    let r = Stmt::eval(&stmts[0], &F64Host, &mut env, &mut io, u64::MAX);
    assert!(r.is_ok());
    assert!(matches!(env.get("X"), Some(PscObject::IntT(5))));
}

#[test]
fn budget_runs_out_on_an_endless_loop() {
    let toks = lex("LOOP WHILE TRUE OUTPUT \"tick\" END LOOP").unwrap();
    let stmts = parse(toks).unwrap();
    let mut env = Env::new();
    let mut io = Io::new(vec![]);
    let r = run(&stmts, &F64Host, &mut env, &mut io, 100);
    assert_eq!(r.unwrap_err().msg, "Execution budget exhausted");
    assert!(!io.outs.is_empty());
}

#[test]
fn non_boolean_loop_condition_never_runs_the_body() {
    // A pre-test loop whose condition is not a boolean retries the
    // condition without executing the body, so only the budget stops it.
    let toks = lex("LOOP WHILE 1 OUTPUT \"x\" END LOOP").unwrap();
    let stmts = parse(toks).unwrap();
    let mut env = Env::new();
    let mut io = Io::new(vec![]);
    let r = run(&stmts, &F64Host, &mut env, &mut io, 1000);
    assert_eq!(r.unwrap_err().msg, "Execution budget exhausted");
    assert!(io.outs.is_empty());
}

#[test]
fn environment_shadows_by_latest_binding() {
    let mut env = Env::new();
    env.insert("A".to_string(), PscObject::IntT(1));
    env.insert("A".to_string(), PscObject::BoolT(true));
    assert!(matches!(env.get("A"), Some(PscObject::BoolT(true))));
    assert!(env.get("B").is_none());
}

#[test]
fn duplicate_preserves_the_value() {
    let v = PscObject::StringT("copy me".to_string());
    match v.duplicate() {
        PscObject::StringT(s) => assert_eq!(s, "copy me"),
        other => panic!("wrong kind: {:?}", other),
    }
}

#[test]
fn relational_on_text_is_a_type_error() {
    let (r, _) = run_prog("OUTPUT \"a\" < \"b\"", vec![]);
    assert_eq!(r.unwrap_err().msg, "Mismatched types");
}

#[test]
fn integer_arithmetic_wraps_at_64_bits() {
    let src = "X = 9223372036854775807 + 1 OUTPUT X";
    assert_eq!(outputs(src), vec!["-9223372036854775808"]);
}
