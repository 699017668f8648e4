use evasion::ast::{Expressions, Nodes, Program, Statements};
use evasion::decimal::{dec_string, dec_string_i64, dec_string_pad4};
use evasion::object::ObjectType;
use evasion::token::{lookup_keyword, Token, TokenTypes};

#[test]
fn test_display_ast() {
    let statments = vec![Nodes::Statement(Statements::Let {
        token: Token::new(TokenTypes::LET, "let".to_string()),
        name: Expressions::Identifier {
            token: Token::new(TokenTypes::IDENT, "myVar".to_string()),
            value: "myVar".to_string(),
        },
        value: Expressions::Identifier {
            token: Token::new(TokenTypes::IDENT, "anotherVar".to_string()),
            value: "anotherVar".to_string(),
        },
    })];

    let program = Program { statments };

    if program.render() != "let myVar = anotherVar;".to_string() {
        panic!("Couldn't print properly, got={}", program.render())
    }
}

#[test]
fn test_object_render() {
    assert_eq!(ObjectType::Integer(3333).render(), "3333".to_string());
    assert_eq!(ObjectType::Integer(0).render(), "0".to_string());
    assert_eq!(ObjectType::Integer(-5).render(), "-5".to_string());
    assert_eq!(
        ObjectType::Integer(i64::MIN).render(),
        "-9223372036854775808".to_string()
    );
    assert_eq!(ObjectType::Boolean(true).render(), "true".to_string());
    assert_eq!(ObjectType::Boolean(false).render(), "false".to_string());
    assert_eq!(ObjectType::Null.render(), "".to_string());
}

#[test]
fn test_decimal_strings() {
    assert_eq!(dec_string(0), "0".to_string());
    assert_eq!(dec_string(65535), "65535".to_string());
    assert_eq!(dec_string_pad4(0), "0000".to_string());
    assert_eq!(dec_string_pad4(7), "0007".to_string());
    assert_eq!(dec_string_pad4(42), "0042".to_string());
    assert_eq!(dec_string_pad4(999), "0999".to_string());
    assert_eq!(dec_string_pad4(1000), "1000".to_string());
    assert_eq!(dec_string_pad4(12345), "12345".to_string());
    assert_eq!(dec_string_i64(-1), "-1".to_string());
}

#[test]
fn test_keyword_lookup() {
    assert_eq!(lookup_keyword(&"let".to_string()), TokenTypes::LET);
    assert_eq!(lookup_keyword(&"fn".to_string()), TokenTypes::FUNCTION);
    assert_eq!(lookup_keyword(&"return".to_string()), TokenTypes::RETURN);
    assert_eq!(lookup_keyword(&"if".to_string()), TokenTypes::IF);
    assert_eq!(lookup_keyword(&"else".to_string()), TokenTypes::ELSE);
    assert_eq!(lookup_keyword(&"true".to_string()), TokenTypes::TRUE);
    assert_eq!(lookup_keyword(&"false".to_string()), TokenTypes::FALSE);
    assert_eq!(lookup_keyword(&"foobar".to_string()), TokenTypes::IDENT);
}

#[test]
fn test_illegal_character_token() {
    let mut lexer = evasion::lexer::Lexer::new("@");
    let tok = lexer.next_token();
    assert_eq!(tok.token_type, TokenTypes::ILLEGLAL);
    assert_eq!(tok.litteral, "@".to_string());
    let eof = lexer.next_token();
    assert_eq!(eof.token_type, TokenTypes::EOF);
}
