use evasion::lexer::Lexer;
use evasion::token::TokenTypes;

#[test]
fn test_next_token() {
    let input = "
            let five = 5;
            let ten = 10;
            let add = fn(x, y) {
                 x + y;
            };

            let result = add(five, ten);

            !-/*5;
            5 < 10 > 5;

            if (5 < 10) {
                return true;
            } else {
                return false;
            }

            10 == 10;
            10 != 9;
        ";

    let tests: Vec<(TokenTypes, &str)> = vec![
        (TokenTypes::LET, "let"),
        (TokenTypes::IDENT, "five"),
        (TokenTypes::ASSIGN, "="),
        (TokenTypes::INT, "5"),
        (TokenTypes::SEMICOLON, ";"),
        (TokenTypes::LET, "let"),
        (TokenTypes::IDENT, "ten"),
        (TokenTypes::ASSIGN, "="),
        (TokenTypes::INT, "10"),
        (TokenTypes::SEMICOLON, ";"),
        (TokenTypes::LET, "let"),
        (TokenTypes::IDENT, "add"),
        (TokenTypes::ASSIGN, "="),
        (TokenTypes::FUNCTION, "fn"),
        (TokenTypes::LPAREN, "("),
        (TokenTypes::IDENT, "x"),
        (TokenTypes::COMMA, ","),
        (TokenTypes::IDENT, "y"),
        (TokenTypes::RPAREN, ")"),
        (TokenTypes::LBRACE, "{"),
        (TokenTypes::IDENT, "x"),
        (TokenTypes::PLUS, "+"),
        (TokenTypes::IDENT, "y"),
        (TokenTypes::SEMICOLON, ";"),
        (TokenTypes::RBRACE, "}"),
        (TokenTypes::SEMICOLON, ";"),
        (TokenTypes::LET, "let"),
        (TokenTypes::IDENT, "result"),
        (TokenTypes::ASSIGN, "="),
        (TokenTypes::IDENT, "add"),
        (TokenTypes::LPAREN, "("),
        (TokenTypes::IDENT, "five"),
        (TokenTypes::COMMA, ","),
        (TokenTypes::IDENT, "ten"),
        (TokenTypes::RPAREN, ")"),
        (TokenTypes::SEMICOLON, ";"),
        (TokenTypes::BANG, "!"),
        (TokenTypes::MINUS, "-"),
        (TokenTypes::SLASH, "/"),
        (TokenTypes::ASTERISK, "*"),
        (TokenTypes::INT, "5"),
        (TokenTypes::SEMICOLON, ";"),
        (TokenTypes::INT, "5"),
        (TokenTypes::LT, "<"),
        (TokenTypes::INT, "10"),
        (TokenTypes::GT, ">"),
        (TokenTypes::INT, "5"),
        (TokenTypes::SEMICOLON, ";"),
        (TokenTypes::IF, "if"),
        (TokenTypes::LPAREN, "("),
        (TokenTypes::INT, "5"),
        (TokenTypes::LT, "<"),
        (TokenTypes::INT, "10"),
        (TokenTypes::RPAREN, ")"),
        (TokenTypes::LBRACE, "{"),
        (TokenTypes::RETURN, "return"),
        (TokenTypes::TRUE, "true"),
        (TokenTypes::SEMICOLON, ";"),
        (TokenTypes::RBRACE, "}"),
        (TokenTypes::ELSE, "else"),
        (TokenTypes::LBRACE, "{"),
        (TokenTypes::RETURN, "return"),
        (TokenTypes::FALSE, "false"),
        (TokenTypes::SEMICOLON, ";"),
        (TokenTypes::RBRACE, "}"),
        (TokenTypes::INT, "10"),
        (TokenTypes::EQ, "=="),
        (TokenTypes::INT, "10"),
        (TokenTypes::SEMICOLON, ";"),
        (TokenTypes::INT, "10"),
        (TokenTypes::NOTEq, "!="),
        (TokenTypes::INT, "9"),
        (TokenTypes::SEMICOLON, ";"),
        (TokenTypes::EOF, ""),
    ];

    let mut lexer = Lexer::new(input);
    for (expected_type, expected_litteral) in tests {
        let tok = lexer.next_token();
        assert_eq!(tok.token_type, expected_type, "Wrong type");
        assert_eq!(tok.litteral, expected_litteral.to_string(), "Wrong Litteral");
    }
}
