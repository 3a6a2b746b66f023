use b_minor::ast::BinaryOp;
use b_minor::scan::{Scanner, TokenKind};
use b_minor::types::{PrimType, Type};
use b_minor::syn::Parser;

fn parser(code: &str) -> Parser {
    Parser::new(Scanner::new(code.chars().collect()))
}

fn scanner(code: &str) -> Scanner {
    Scanner::new(code.chars().collect())
}

#[test]
fn parse_empty_reports_error() {
    let e = parser("").parse_expression(0).unwrap_err();
    assert!(e.to_string().contains("Found EOF expecting an expression"), "{}", e.to_string());
}

#[test]
fn missing_close_paren_at_eof_reports_error() {
    let e = parser("(1 + 2").parse_expression(0).unwrap_err();
    assert!(e.to_string().contains("Found EOF while expecting token ')'"), "{}", e.to_string());
}

#[test]
fn missing_close_paren_reports_error() {
    let e = parser("(1 + 2]").parse_expression(0).unwrap_err();
    assert!(e.to_string().contains("Expected ')'"), "{}", e.to_string());
}

#[test]
fn subscript_missing_brk_at_eof_reports_error() {
    let e = parser("arr[0").parse_expression(0).unwrap_err();
    assert!(e.to_string().contains("Found EOF while expecting token ']'"), "{}", e.to_string());
}

#[test]
fn subscript_missing_brk_reports_error() {
    let e = parser("arr[0)").parse_expression(0).unwrap_err();
    assert!(e.to_string().contains("Expected ']'"), "{}", e.to_string());
}

#[test]
fn func_call_missing_comma_or_paren_reports_error() {
    let e = parser("foo(1 2)").parse_expression(0).unwrap_err();
    assert!(e.to_string().contains("Expected ',' or ')'"), "{}", e.to_string());
}

#[test]
fn func_call_on_non_ident_reports_error() {
    let e = parser("42()").parse_expression(0).unwrap_err();
    assert!(e.to_string().contains("Expected identifier before '('"), "{}", e.to_string());
}

#[test]
fn subscript_on_non_ident_reports_error() {
    let e = parser("42[0]").parse_expression(0).unwrap_err();
    assert!(e.to_string().contains("Expected identifier or ']' before subscript"), "{}", e.to_string());
}

#[test]
fn invalid_starts_reports_error() {
    let e = parser(";").parse_expression(0).unwrap_err();
    assert!(e.to_string().contains("Expected to find"), "{}", e.to_string());
}

#[test]
fn func_call_unclosed_reports_error() {
    let e = parser("foo(1, 2").parse_expression(0).unwrap_err();
    assert!(e.to_string().contains("EOF found parsing function call arguments"), "{}", e.to_string());
}

#[test]
fn illegal_binary_operator_reports_error() {
    let e = parser("1 * 2 ! 3").parse_expression(0).unwrap_err();
    assert!(e.to_string().contains("Expected binary operator"), "{}", e.to_string());
}

#[test]
fn illegal_incr_reports_error() {
    let e = parser("1++").parse_expression(0).unwrap_err();
    assert!(e.to_string().contains("Expected identifier before"), "{}", e.to_string());
}

#[test]
fn illegal_decr_reports_error() {
    let e = parser("1--").parse_expression(0).unwrap_err();
    assert!(e.to_string().contains("Expected identifier before"), "{}", e.to_string());
}

#[test]
fn parse_var_decl_type_invalid_reports_error() {
    let e = parser("foo").parse_var_decl_type().unwrap_err();
    assert!(e.to_string().contains("Expected a type declaration"), "{}", e.to_string());
}

#[test]
fn parse_var_decl_type_eof_reports_error() {
    let e = parser("").parse_var_decl_type().unwrap_err();
    assert!(e.to_string().contains("Found EOF while expecting a type declaration"), "{}", e.to_string());
}

#[test]
fn decl_missing_colon_reports_error() {
    let e = parser("x integer;").declaration().unwrap_err();
    assert!(e.to_string().contains("Expected ':'"), "{}", e.to_string());
}

#[test]
fn decl_invalid_type_reports_error() {
    let e = parser("x: foo;").declaration().unwrap_err();
    assert!(e.to_string().contains("Expected 'function' or a type"), "{}", e.to_string());
}

#[test]
fn decl_array_unclosed_brk_reports_error() {
    let e = parser("x: array [ integer;").declaration().unwrap_err();
    assert!(e.to_string().contains("Expected array size"), "{}", e.to_string());
}

#[test]
fn decl_missing_init_expr_reports_error() {
    let e = parser("x: integer = ;").declaration().unwrap_err();
    assert!(e.to_string().contains("Expected to find '(', '!', '-', a literal, or an identifier"), "{}", e.to_string());
}

#[test]
fn decl_eof_after_assign_reports_error() {
    let e = parser("x: integer =").declaration().unwrap_err();
    assert!(e.to_string().contains("Found EOF parsing an initializer"), "{}", e.to_string());
}

#[test]
fn decl_eof_after_colon_reports_error() {
    let e = parser("x:").declaration().unwrap_err();
    assert!(e.to_string().contains("Found EOF parsing a declaration"), "{}", e.to_string());
}

#[test]
fn no_declaration_at_top_level_reports_error() {
    let e = parser("(1 + 2)").parse_top().unwrap_err();
    assert!(e.to_string().contains("Expected an identifier at"), "{}", e.to_string());
}

#[test]
fn var_decl_array_decl_missing_size_reports_error() {
    let e = parser("x: array [] integer = [42];").declaration().unwrap_err();
    assert!(e.to_string().contains("Expected array size"), "{}", e.to_string());
}

#[test]
fn return_type_invalid_reports_error() {
    let e = parser("foo").parse_return_type().unwrap_err();
    assert!(e.to_string().contains("Expected a return type declaration"), "{}", e.to_string());
}

#[test]
fn return_type_eof_reports_error() {
    let e = parser("").parse_return_type().unwrap_err();
    assert!(e.to_string().contains("Found EOF while expecting a type declaration"), "{}", e.to_string());
}

#[test]
fn func_sig_missing_paren_reports_error() {
    let e = parser("integer(").parse_function_signature().unwrap_err();
    assert!(e.to_string().contains("EOF found while expecting a declaration"), "{}", e.to_string());
}

#[test]
fn func_sig_bad_separator_reports_error() {
    let e = parser("integer(x: char y: char)").parse_function_signature().unwrap_err();
    assert!(e.to_string().contains("Expected ',' or ')'"), "{}", e.to_string());
}

#[test]
fn block_unclosed_reports_error() {
    let e = parser("{").parse_block().unwrap_err();
    assert!(e.to_string().contains("Found EOF expecting a statement"), "{}", e.to_string());
}

#[test]
fn block_assign_missing_semi_reports_error() {
    let e = parser("{x = 42}").parse_block().unwrap_err();
    assert!(e.to_string().contains("Expected ';'"), "{}", e.to_string());
}

#[test]
fn block_assign_missing_expr_reports_error() {
    let e = parser("{x = ;}").parse_block().unwrap_err();
    assert!(e.to_string().contains("Expected to find"), "{}", e.to_string());
}

#[test]
fn block_assign_invalid_token_reports_error() {
    let e = parser("{x , 42;}").parse_block().unwrap_err();
    assert!(e.to_string().contains("Expected ';', found ,"), "{}", e.to_string());
}

#[test]
fn block_assign_eof_after_expr_reports_error() {
    let e = parser("{x = 42").parse_block().unwrap_err();
    assert!(e.to_string().contains("Found EOF while expecting token ';'"), "{}", e.to_string());
}

#[test]
fn if_missing_lparen_reports_error() {
    let e = parser("{if true { x = 1; }}").parse_block().unwrap_err();
    assert!(e.to_string().contains("Expected '('"), "{}", e.to_string());
}

#[test]
fn if_missing_rparen_reports_error() {
    let e = parser("{if (true { x = 1; }}").parse_block().unwrap_err();
    assert!(e.to_string().contains("Expected ')'"), "{}", e.to_string());
}

#[test]
fn for_missing_lparen_reports_error() {
    let e = parser("{for ;; {}}").parse_block().unwrap_err();
    assert!(e.to_string().contains("Expected '('"), "{}", e.to_string());
}

#[test]
fn for_missing_semi_reports_error() {
    let e = parser("{for (; x < 10) {}}").parse_block().unwrap_err();
    assert!(e.to_string().contains("Expected ';'"), "{}", e.to_string());
}

#[test]
fn for_missing_rparen_reports_error() {
    let e = parser("{for (; true; x++ {}}").parse_block().unwrap_err();
    assert!(e.to_string().contains("Expected ',' or ')'"), "{}", e.to_string());
}

#[test]
fn func_decl_missing_semi_or_assign_reports_error() {
    let e = parser("foo: function integer()").declaration().unwrap_err();
    assert!(e.to_string().contains("Found EOF when parsing a function"), "{}", e.to_string());
}

#[test]
fn func_decl_unexpected_after_sig_reports_error() {
    let e = parser("foo: function integer() x").declaration().unwrap_err();
    assert!(e.to_string().contains("Expected ';' or '='"), "{}", e.to_string());
}

#[test]
fn return_missing_semi_no_expr_reports_error() {
    let e = parser("{return}").parse_block().unwrap_err();
    assert!(e.to_string().contains("Expected to find"), "{}", e.to_string());
}

#[test]
fn return_missing_semi_with_expr_reports_error() {
    let e = parser("{return 42}").parse_block().unwrap_err();
    assert!(e.to_string().contains("Expected ';'"), "{}", e.to_string());
}

#[test]
fn parse_assign_non_assign_reports_error() {
    let e = parser("{for (x + 1; true;) {}}").parse_block().unwrap_err();
    assert!(e.to_string().contains("Expected an identifier, got"), "{}", e.to_string());
}

#[test]
fn func_sig_init_in_param_reports_error() {
    let e = parser("integer(x: integer = 42)").parse_function_signature().unwrap_err();
    assert!(e.to_string().contains("No initialization allowed in function signatures"), "{}", e.to_string());
}

#[test]
fn parse_var_decl_invalid_start_reports_error() {
    let e = parser("integer(42: integer)").parse_function_signature().unwrap_err();
    assert!(e.to_string().contains("Expected a variable declaration"), "{}", e.to_string());
}

#[test]
fn parse_var_decl_type_array_non_int_size_reports_error() {
    let e = parser("array [true] integer").parse_var_decl_type().unwrap_err();
    assert!(e.to_string().contains("Expected array size"), "{}", e.to_string());
}

#[test]
fn parse_var_decl_type_array_size_eof_reports_error() {
    let e = parser("array [").parse_var_decl_type().unwrap_err();
    assert!(e.to_string().contains("Found EOF while expecting array size"), "{}", e.to_string());
}

#[test]
fn for_post_eof_reports_error() {
    let e = parser("{for (; true; x++").parse_block().unwrap_err();
    assert!(e.to_string().contains("EOF found when expecting ',' or ')'"), "{}", e.to_string());
}

#[test]
fn print_bad_separator_reports_error() {
    let e = parser("{print 1 2;}").parse_block().unwrap_err();
    assert!(e.to_string().contains("Expected ',' or ';'"), "{}", e.to_string());
}

#[test]
fn print_eof_reports_error() {
    let e = parser("{print 1").parse_block().unwrap_err();
    assert!(e.to_string().contains("EOF found while expecting ',' or ';'"), "{}", e.to_string());
}

#[test]
fn func_sig_eof_after_param_reports_error() {
    let e = parser("foo: function integer(x: integer").declaration().unwrap_err();
    assert!(e.to_string().contains("EOF found parsing function call arguments"), "{}", e.to_string());
}

#[test]
fn array_init_bad_separator_reports_error() {
    let e = parser("x: array [3] integer = [1 2").declaration().unwrap_err();
    assert!(e.to_string().contains("Expected ',' or ']'"), "{}", e.to_string());
}

#[test]
fn array_init_eof_reports_error() {
    let e = parser("x: array [3] integer = [1, 2").declaration().unwrap_err();
    assert!(e.to_string().contains("EOF found parsing array initialization"), "{}", e.to_string());
}

#[test]
fn single_ampersand_fails_reports_error() {
    let e = scanner("&").scan().unwrap_err();
    assert!(e.to_string().contains("Expected '&&'"), "{}", e.to_string());
}

#[test]
fn single_pipe_fails_reports_error() {
    let e = scanner("|").scan().unwrap_err();
    assert!(e.to_string().contains("Expected '||'"), "{}", e.to_string());
}

#[test]
fn char_literal_eof_after_backslash_reports_error() {
    let e = scanner("'\\").scan().unwrap_err();
    assert!(e.to_string().contains("Found EOF while processing a character literal"), "{}", e.to_string());
}

#[test]
fn message_names_the_token_found_and_its_position() {
    let e = parser("(1 + 2]").parse_expression(0).unwrap_err();
    assert_eq!(e.to_string(), "Expected ')', found ] at 1,7");
    let e = parser("x: foo;").declaration().unwrap_err();
    assert_eq!(e.to_string(), "Expected 'function' or a type at 1,4");
    let e = parser("").parse_expression(0).unwrap_err();
    assert_eq!(e.to_string(), "Found EOF expecting an expression");
}

#[test]
fn scanner_messages() {
    assert_eq!(scanner("#").scan().unwrap_err().to_string(), "Unrecognized character '#' at 1,1");
    assert_eq!(
        scanner("  /* open").scan().unwrap_err().to_string(),
        "Found EOF while processing comment starting at 1,3"
    );
    assert_eq!(
        scanner("  /* open *").scan().unwrap_err().to_string(),
        "Found EOF while processing comment starting at 1,3"
    );
    assert_eq!(scanner("''").scan().unwrap_err().to_string(), "Empty character at 1,2");
}

#[test]
fn tokenkind_display() {
    let cases = [
        (TokenKind::Comma, ","),
        (TokenKind::Semi, ";"),
        (TokenKind::Incr, "++"),
        (TokenKind::And, "&&"),
        (TokenKind::Geq, ">="),
        (TokenKind::LeftAngl, "{"),
        (TokenKind::Array, "array"),
        (TokenKind::Bool, "boolean"),
        (TokenKind::Function, "function"),
        (TokenKind::False, "false"),
        (TokenKind::CharLit('a'), "a"),
        (TokenKind::CharLit('Z'), "Z"),
        (TokenKind::IntLit(5), "5"),
        (TokenKind::IntLit(98452), "98452"),
        (TokenKind::IntLit(-17), "-17"),
        (TokenKind::IntLit(i64::MIN), "-9223372036854775808"),
        (TokenKind::Ident(3), "Ident(3)"),
        (TokenKind::StringLit(12), "String(12)"),
    ];
    for (tk, expected) in cases {
        assert_eq!(tk.to_string(), expected);
    }
}

#[test]
fn binary_op_display() {
    let cases = [
        (BinaryOp::And, "&&"),
        (BinaryOp::Or, "||"),
        (BinaryOp::Add, "+"),
        (BinaryOp::Sub, "-"),
        (BinaryOp::Mul, "*"),
        (BinaryOp::Div, "/"),
        (BinaryOp::Mod, "%"),
        (BinaryOp::Pow, "^"),
        (BinaryOp::Eql, "=="),
        (BinaryOp::Neq, "!="),
        (BinaryOp::Lss, "<"),
        (BinaryOp::Lte, "<="),
        (BinaryOp::Grt, ">"),
        (BinaryOp::Gte, ">="),
    ];
    for (op, expected) in cases {
        assert_eq!(op.to_string(), expected);
    }
}

#[test]
fn type_display() {
    assert_eq!(Type::Undeclared.to_string(), "undeclared");
    assert_eq!(Type::Scalar(PrimType::Int).to_string(), "integer");
    assert_eq!(Type::Scalar(PrimType::Bool).to_string(), "boolean");
    assert_eq!(PrimType::Void.to_string(), "void");
    assert_eq!(PrimType::String.to_string(), "string");
    assert_eq!(PrimType::Char.to_string(), "char");
}


#[test]
fn name_length_messages() {
    let long_ident: String = std::iter::repeat('a').take(257).collect();
    assert_eq!(
        scanner(&long_ident).scan().unwrap_err().to_string(),
        "Identifier longer than 256 characters at 1,1"
    );
    let long_string = format!("x = \"{}\"", "b".repeat(257));
    let mut scn = scanner(&long_string);
    scn.scan().unwrap();
    scn.scan().unwrap();
    assert_eq!(scn.scan().unwrap_err().to_string(), "String longer than 256 characters at 1,5");
}
