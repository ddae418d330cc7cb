use ravel::formatter::{FormatError, FormatStyle, format_with_style};
use ravel::parser::{parse, reconstruct};

#[test]
fn formats_assignment_binary_and_paren_stably() {
    let input = "x<-(1+2)*3^4\n";
    let expected = "x <- (1 + 2) * 3^4\n";
    let formatted = ravel::formatter::format(input).expect("should format input");
    assert_eq!(formatted, expected);
    let reformatted = ravel::formatter::format(&formatted).expect("should remain formatable");
    assert_eq!(reformatted, expected);
}

#[test]
fn formats_if_else_blocks_with_comments_and_strings() {
    let input = "if(x){# keep\nmsg<-'a+b'\n}else{y<-1+2}\n";
    let expected = "if (x) {\n  # keep\n  msg <- 'a+b'\n} else {\n  y <- 1 + 2\n}\n";
    let formatted = ravel::formatter::format(input).expect("should format if/else blocks");
    assert_eq!(formatted, expected);
}

#[test]
fn preserves_comment_only_lines() {
    let input = "x<-1\n# untouched\n";
    let expected = "x <- 1\n# untouched\n";
    let formatted = ravel::formatter::format(input).expect("should format and preserve comments");
    assert_eq!(formatted, expected);
}

#[test]
fn rejects_unsupported_constructs_explicitly() {
    let err =
        ravel::formatter::format("x %foo% y\n").expect_err("user operators are unsupported currently");
    assert!(matches!(err, FormatError::UnsupportedConstruct { .. }));
}

#[test]
fn explicit_default_style_matches_default_format() {
    let input = "if(x){y<-1+2}else{z<-3}\n";
    let implicit = ravel::formatter::format(input).expect("default format should succeed");
    let explicit = format_with_style(input, FormatStyle::default())
        .expect("format_with_style default should succeed");
    assert_eq!(implicit, explicit);
}

#[test]
fn wraps_binary_expression_when_width_is_exceeded() {
    let input = "alpha <- beta + gamma_delta\n";
    let style = FormatStyle {
        line_width: 17,
        indent_width: 2,
    };
    let expected = "alpha <- beta\n  + gamma_delta\n";
    let formatted = format_with_style(input, style).expect("format should succeed");
    assert_eq!(formatted, expected);

    let reformatted = format_with_style(&formatted, style).expect("reformat should succeed");
    assert_eq!(reformatted, expected);
}

#[test]
fn wraps_call_arguments_when_width_is_exceeded() {
    let input = "call(first_arg, second_argument, third)\n";
    let style = FormatStyle {
        line_width: 22,
        indent_width: 2,
    };
    let expected = "call(\n  first_arg,\n  second_argument,\n  third\n)\n";
    let formatted = format_with_style(input, style).expect("format should succeed");
    assert_eq!(formatted, expected);

    let reformatted = format_with_style(&formatted, style).expect("reformat should succeed");
    assert_eq!(reformatted, expected);
}

#[test]
fn preserves_trailing_comments_when_wrapping_calls() {
    let input = "fn_name(argument, second) # keep\n";
    let style = FormatStyle {
        line_width: 18,
        indent_width: 2,
    };
    let expected = "fn_name(\n  argument,\n  second\n) # keep\n";
    let formatted = format_with_style(input, style).expect("format should succeed");
    assert_eq!(formatted, expected);

    let reformatted = format_with_style(&formatted, style).expect("reformat should succeed");
    assert_eq!(reformatted, expected);
}

#[test]
fn block_contents_are_width_aware() {
    let input = "if (x) { total <- alpha + gamma_delta }\n";
    let style = FormatStyle {
        line_width: 20,
        indent_width: 2,
    };
    let expected = "if (x) {\n  total <- alpha\n    + gamma_delta\n}\n";
    let formatted = format_with_style(input, style).expect("format should succeed");
    assert_eq!(formatted, expected);

    let reformatted = format_with_style(&formatted, style).expect("reformat should succeed");
    assert_eq!(reformatted, expected);
}

#[test]
fn formats_if_else_on_one_line_as_blocks() {
    let input = "if(x){y<-1+2}else{z<-3}\n";
    let expected = "if (x) {\n  y <- 1 + 2\n} else {\n  z <- 3\n}\n";
    assert_eq!(ravel::formatter::format(input).unwrap(), expected);
}

#[test]
fn function_parameters_wrap_when_the_line_is_too_long() {
    let input = "x <- function(aaaaa, bbbbb, ccccc, ddddd) 1\n";
    assert_eq!(ravel::formatter::format(input).unwrap(), input);
    let narrow = FormatStyle {
        line_width: 30,
        indent_width: 2,
    };
    assert_eq!(
        format_with_style(input, narrow).unwrap(),
        "x <- function(\n  aaaaa,\n  bbbbb,\n  ccccc,\n  ddddd\n) {\n  1\n}\n"
    );
    let wide_indent = FormatStyle {
        line_width: 30,
        indent_width: 4,
    };
    assert!(format_with_style(input, wide_indent).unwrap().contains("\n    aaaaa,"));
}

#[test]
fn single_statement_function_body_is_written_bare_when_it_fits() {
    let input = "x <- function(aaaaa, bbbbb, ccccc, ddddd) { 1 }\n";
    assert_eq!(
        ravel::formatter::format(input).unwrap(),
        "x <- function(aaaaa, bbbbb, ccccc, ddddd) 1\n"
    );
    let narrow = FormatStyle {
        line_width: 30,
        indent_width: 2,
    };
    assert!(format_with_style(input, narrow).unwrap().contains("function(\n"));
}

#[test]
fn parse_errors_are_refused_with_their_count() {
    match ravel::formatter::format("function(x\n") {
        Err(FormatError::ParseErrors { count }) => assert!(count > 0),
        other => panic!("expected ParseErrors, got {other:?}"),
    }
}

#[test]
fn at_tokens_are_refused_with_their_text() {
    match ravel::formatter::format("x@y\n") {
        Err(FormatError::UnsupportedConstruct { snippet, .. }) => assert_eq!(snippet, "@"),
        other => panic!("expected UnsupportedConstruct, got {other:?}"),
    }
}

#[test]
fn two_expressions_on_one_line_are_ambiguous() {
    let err = ravel::formatter::format("x y\n").unwrap_err();
    assert!(matches!(err, FormatError::AmbiguousConstruct { .. }));
}

#[test]
fn keeps_a_final_newline_and_adds_none() {
    assert_eq!(ravel::formatter::format("x<-1").unwrap(), "x <- 1");
    assert_eq!(ravel::formatter::format("x<-1\n").unwrap(), "x <- 1\n");
    assert_eq!(ravel::formatter::format("").unwrap(), "");
}

#[test]
fn keeps_single_blank_lines_between_statements() {
    let input = "a<-1\n\n\nb<-2\n";
    assert_eq!(ravel::formatter::format(input).unwrap(), "a <- 1\n\nb <- 2\n");
}

#[test]
fn loops_get_braced_bodies() {
    assert_eq!(
        ravel::formatter::format("for(i in 1:3) print(i)\n").unwrap(),
        "for (i in 1:3) {\n  print(i)\n}\n"
    );
    assert_eq!(
        ravel::formatter::format("while(x){y}\n").unwrap(),
        "while (x) {\n  y\n}\n"
    );
    assert_eq!(
        ravel::formatter::format("repeat{break}\n").unwrap(),
        "repeat {\n  break\n}\n"
    );
}

#[test]
fn pipes_and_sticky_operators() {
    assert_eq!(
        ravel::formatter::format("x|>f()\n").unwrap(),
        "x |>\n  f()\n"
    );
    assert_eq!(
        ravel::formatter::format("pkg::fn(a$b, 1:n)\n").unwrap(),
        "pkg::fn(a$b, 1:n)\n"
    );
}

#[test]
fn named_arguments_and_subsets() {
    assert_eq!(
        ravel::formatter::format("f(a=1,b)\n").unwrap(),
        "f(a = 1, b)\n"
    );
    assert_eq!(ravel::formatter::format("x[1,2]\n").unwrap(), "x[1, 2]\n");
    assert_eq!(ravel::formatter::format("x[[i]]\n").unwrap(), "x[[i]]\n");
}

#[test]
fn error_messages_name_the_problem() {
    let err = ravel::formatter::format("x %foo% y\n").unwrap_err();
    assert!(err.to_message().contains("unsupported construct for formatter"));
    assert_eq!(
        FormatError::ParseErrors { count: 2 }.to_message(),
        "input contains 2 parser diagnostic(s); formatter only supports parseable input"
    );
}

#[test]
fn parse_is_lossless() {
    let input = "x <- function(a, b) { a + b }\r\nz<-fn(1, 2)\nif (x) y\n";
    assert_eq!(reconstruct(input), input);
    assert_eq!(parse(input).cst.text(), input);
}

#[test]
fn walrus_assignment_is_spaced_like_other_assignments() {
    assert_eq!(ravel::formatter::format("x:=1\n"), Ok("x := 1\n".to_string()));
}

#[test]
fn help_operator_is_refused_by_the_formatter() {
    assert!(matches!(
        ravel::formatter::format("?topic\n"),
        Err(FormatError::UnsupportedConstruct { .. })
    ));
}

#[test]
fn blank_input_formats_to_nothing_but_its_final_newline() {
    assert_eq!(ravel::formatter::format("  \n\n"), Ok("\n".to_string()));
    assert_eq!(ravel::formatter::format(" ; "), Ok(String::new()));
}

#[test]
fn function_with_atom_body_stays_on_one_line() {
    assert_eq!(ravel::formatter::format("f <- function() x\n"), Ok("f <- function() x\n".to_string()));
}

#[test]
fn a_lone_name_formats_to_itself() {
    assert_eq!(ravel::formatter::format("x\n"), Ok("x\n".to_string()));
    assert_eq!(ravel::formatter::format("  value ;\n\n"), Ok("value\n".to_string()));
}

#[test]
fn an_at_sign_is_reported_before_an_earlier_user_operator() {
    assert_eq!(
        ravel::formatter::format("x %foo% y\na@b\n"),
        Err(FormatError::UnsupportedConstruct {
            kind: ravel::syntax::SyntaxKind::AT,
            snippet: "@".to_string(),
        })
    );
}

#[test]
fn function_with_name_parameters_and_atom_body_stays_on_one_line() {
    assert_eq!(
        ravel::formatter::format("f <- function(a,b) x\n"),
        Ok("f <- function(a, b) x\n".to_string())
    );
}

#[test]
fn call_with_name_arguments_parses_cleanly() {
    let parsed = parse("f(a , b)");
    assert!(parsed.diagnostics.is_empty());
    assert_eq!(reconstruct("f(a , b)"), "f(a , b)");
}

#[test]
fn lines_of_names_keep_their_lines() {
    assert_eq!(ravel::formatter::format("a\nb\n\n  c\n"), Ok("a\nb\n\nc\n".to_string()));
}
