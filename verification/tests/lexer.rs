use ravel::parser::lexer::{TokKind, lex};

#[test]
fn lexes_crlf_as_single_newline_token() {
    let tokens = lex("x\r\ny");
    assert_eq!(tokens.len(), 3);
    assert_eq!(tokens[0].kind, TokKind::Ident);
    assert_eq!(tokens[1].kind, TokKind::Newline);
    assert_eq!(tokens[1].text, "\r\n");
    assert_eq!(tokens[2].kind, TokKind::Ident);
}

#[test]
fn lexes_lone_cr_as_newline_token() {
    let tokens = lex("x\ry");
    assert_eq!(tokens.len(), 3);
    assert_eq!(tokens[0].kind, TokKind::Ident);
    assert_eq!(tokens[1].kind, TokKind::Newline);
    assert_eq!(tokens[1].text, "\r");
    assert_eq!(tokens[2].kind, TokKind::Ident);
}

#[test]
fn lexes_dotted_identifier_as_single_ident_token() {
    let tokens = lex("is.null(x)");
    assert_eq!(tokens[0].kind, TokKind::Ident);
    assert_eq!(tokens[0].text, "is.null");
}

#[test]
fn lexes_scientific_and_hex_doubles_as_single_float_tokens() {
    let tokens = lex("1e6 0x123F 0x0p+123");
    let number_tokens: Vec<_> = tokens
        .into_iter()
        .filter(|t| !matches!(t.kind, TokKind::Whitespace))
        .collect();

    assert_eq!(number_tokens.len(), 3);
    assert_eq!(number_tokens[0].kind, TokKind::Float);
    assert_eq!(number_tokens[0].text, "1e6");
    assert_eq!(number_tokens[1].kind, TokKind::Float);
    assert_eq!(number_tokens[1].text, "0x123F");
    assert_eq!(number_tokens[2].kind, TokKind::Float);
    assert_eq!(number_tokens[2].text, "0x0p+123");
}

#[test]
fn lexes_integer_suffix_literals_as_single_int_tokens() {
    let tokens = lex("1L 1e5L 0x123L 0x0p+10L");
    let number_tokens: Vec<_> = tokens
        .into_iter()
        .filter(|t| !matches!(t.kind, TokKind::Whitespace))
        .collect();

    assert_eq!(number_tokens.len(), 4);
    for tok in &number_tokens {
        assert_eq!(tok.kind, TokKind::Int);
    }
    assert_eq!(number_tokens[0].text, "1L");
    assert_eq!(number_tokens[1].text, "1e5L");
    assert_eq!(number_tokens[2].text, "0x123L");
    assert_eq!(number_tokens[3].text, "0x0p+10L");
}

#[test]
fn lexes_raw_strings_as_single_string_tokens() {
    let tokens = lex("r\"(hi)\" r\"-(a)-\" r\"(multi\nline)\"");
    let string_tokens: Vec<_> = tokens
        .into_iter()
        .filter(|t| matches!(t.kind, TokKind::String))
        .collect();
    assert_eq!(string_tokens.len(), 3);
    assert_eq!(string_tokens[0].text, "r\"(hi)\"");
    assert_eq!(string_tokens[1].text, "r\"-(a)-\"");
    assert_eq!(string_tokens[2].text, "r\"(multi\nline)\"");
}

#[test]
fn lexes_dots_symbols_as_ident_tokens() {
    let tokens = lex("... ..1 ..123");
    let sig: Vec<_> = tokens
        .into_iter()
        .filter(|t| !matches!(t.kind, TokKind::Whitespace))
        .collect();
    assert_eq!(sig.len(), 3);
    assert_eq!(sig[0].kind, TokKind::Ident);
    assert_eq!(sig[0].text, "...");
    assert_eq!(sig[1].kind, TokKind::Ident);
    assert_eq!(sig[1].text, "..1");
    assert_eq!(sig[2].kind, TokKind::Ident);
    assert_eq!(sig[2].text, "..123");
}

#[test]
fn lexes_lambda_fn_and_dot_prefixed_ident() {
    let tokens = lex("\\(x) .f");
    let sig: Vec<_> = tokens
        .into_iter()
        .filter(|t| !matches!(t.kind, TokKind::Whitespace))
        .collect();
    assert_eq!(sig.len(), 5);
    assert_eq!(sig[0].kind, TokKind::LambdaFn);
    assert_eq!(sig[0].text, "\\");
    assert_eq!(sig[4].kind, TokKind::Ident);
    assert_eq!(sig[4].text, ".f");
}

#[test]
fn token_offsets_tile_the_input() {
    let input = "x <- f(1, 'a')\n";
    let tokens = lex(input);
    let mut pos = 0;
    let mut text = String::new();
    for tok in &tokens {
        assert_eq!(tok.start, pos);
        pos = tok.end;
        text.push_str(&tok.text);
    }
    assert_eq!(text, input);
    assert_eq!(pos, input.chars().count());
}

#[test]
fn lexes_keywords_and_assignment_operators() {
    let tokens = lex("if (a <<- b) c -> d");
    let kinds: Vec<TokKind> = tokens
        .into_iter()
        .filter(|t| !matches!(t.kind, TokKind::Whitespace))
        .map(|t| t.kind)
        .collect();
    assert_eq!(
        kinds,
        vec![
            TokKind::IfKw,
            TokKind::LParen,
            TokKind::Ident,
            TokKind::SuperAssign,
            TokKind::Ident,
            TokKind::RParen,
            TokKind::Ident,
            TokKind::AssignRight,
            TokKind::Ident,
        ]
    );
}

#[test]
fn comments_blanks_and_words_take_all_they_can() {
    let tokens = lex("if_x  \t# note\r\nfor1");
    let kinds: Vec<TokKind> = tokens.iter().map(|t| t.kind).collect();
    let texts: Vec<&str> = tokens.iter().map(|t| t.text.as_str()).collect();
    assert_eq!(
        kinds,
        vec![
            TokKind::Ident,
            TokKind::Whitespace,
            TokKind::Comment,
            TokKind::Newline,
            TokKind::Ident
        ]
    );
    assert_eq!(texts, vec!["if_x", "  \t", "# note", "\r\n", "for1"]);
}

#[test]
fn user_operator_runs_to_the_next_percent_sign() {
    let tokens = lex("a %in% b %% c");
    let ops: Vec<&str> = tokens
        .iter()
        .filter(|t| t.kind == TokKind::UserOp)
        .map(|t| t.text.as_str())
        .collect();
    assert_eq!(ops, vec!["%in%", "%%"]);
}

#[test]
fn comment_before_crlf_leaves_the_whole_line_break_to_the_newline() {
    let tokens = lex("# c\r\nx");
    assert_eq!(tokens.len(), 3);
    assert_eq!(tokens[0].kind, TokKind::Comment);
    assert_eq!(tokens[0].text, "# c");
    assert_eq!((tokens[0].start, tokens[0].end), (0, 3));
    assert_eq!(tokens[1].kind, TokKind::Newline);
    assert_eq!(tokens[1].text, "\r\n");
    assert_eq!((tokens[1].start, tokens[1].end), (3, 5));
    assert_eq!(tokens[2].kind, TokKind::Ident);
}
