fn fmt(input: &str) -> String {
    match ravel::formatter::format(input) {
        Ok(s) => s,
        Err(e) => format!("ERR {}", e.to_message()),
    }
}

#[test]
fn shapes_of_common_code() {
    let cases = [
        ("f <- function(x, y = 2) {\nx + y\n}\n", "f <- function(x, y = 2) x + y\n"),
        ("f <- function(x) {\n  y <- x\n  y\n}\n", "f <- function(x) {\n  y <- x\n  y\n}\n"),
        ("if (a) b else if (c) d else e\n", "if (a) b else if (c) d else e\n"),
        ("x <- -1\n", "x <- -1\n"),
        ("y <- !x\n", "y <- !x\n"),
        ("m <- y ~ x\n", "m <- y ~ x\n"),
        ("g <- \\(x) x + 1\n", "g <- \\(x) x + 1\n"),
        ("f <- function() {}\n", "f <- function() {}\n"),
        ("x$y <- z[[1]]\n", "x$y <- z[[1]]\n"),
        ("{\n  # only a comment\n}\n", "{\n  # only a comment\n}\n"),
        ("x <- 1 # note\n", "x <- 1 # note\n"),
        ("a = 1\n", "a = 1\n"),
        ("1 -> b\n", "1 -> b\n"),
        ("df[, 1]\n", "df[, 1]\n"),
        ("f(a, )\n", "f(a, )\n"),
    ];
    let mut bad = Vec::new();
    for (input, expected) in cases {
        let got = fmt(input);
        if got != expected {
            bad.push(format!("{input:?} => {got:?} (expected {expected:?})"));
        }
    }
    assert!(bad.is_empty(), "{}", bad.join("\n"));
}

#[test]
fn trailing_blocks_hug_their_call() {
    let cases = [
        ("lapply(xs, function(x) {\n  x\n})\n", "lapply(xs, function(x) x)\n"),
        (
            "lapply(xs, function(x) {\n  y <- x\n  y\n})\n",
            "lapply(xs, function(x) {\n  y <- x\n  y\n})\n",
        ),
        ("local({\na <- 1\n})\n", "local({\n  a <- 1\n})\n"),
        ("f(x)\n", "f(x)\n"),
    ];
    let mut bad = Vec::new();
    for (input, expected) in cases {
        let got = fmt(input);
        if got != expected {
            bad.push(format!("{input:?} => {got:?} (expected {expected:?})"));
        }
    }
    assert!(bad.is_empty(), "{}", bad.join("\n"));
}

#[test]
fn embraced_arguments_stay_on_one_line() {
    assert_eq!(fmt("summarise(df, n = {{col}})\n"), "summarise(df, n = {{ col }})\n");
    assert_eq!(fmt("f({{ x }})\n"), "f({{ x }})\n");
    assert_eq!(fmt("y <- {{ a }} + 1\n"), "y <- {{ a }} + 1\n");
}

fn fmt_width(input: &str, width: usize) -> String {
    let style = ravel::formatter::FormatStyle {
        line_width: width,
        indent_width: 2,
    };
    match ravel::formatter::format_with_style(input, style) {
        Ok(s) => s,
        Err(e) => format!("ERR {}", e.to_message()),
    }
}

#[test]
fn subset_holes_and_separators() {
    assert_eq!(fmt("x[a, ]\n"), "x[a, ]\n");
    assert_eq!(fmt("x[,,1]\n"), "x[,, 1]\n");
    assert_eq!(fmt("m[[ 1 ]]\n"), "m[[1]]\n");
}

#[test]
fn subset_trailing_block_hugs_the_bracket() {
    assert_eq!(
        fmt("dt[, {\na\nb\n}]\n"),
        "dt[, {\n  a\n  b\n}]\n"
    );
}

#[test]
fn subset_leading_hole_before_a_block_opens_the_list() {
    assert_eq!(
        fmt("x[, {\na\nb\n}, c]\n"),
        "x[,\n  {\n    a\n    b\n  },\n  c\n]\n"
    );
}

#[test]
fn subset_comment_after_the_last_comma_breaks_the_list() {
    assert_eq!(fmt("x[1, # note\n]\n"), "x[\n  1,\n  # note\n]\n");
}

#[test]
fn call_comments_stay_with_their_arguments() {
    assert_eq!(fmt("f(\na, # first\n)\n"), "f(\n  a, # first\n)\n");
    assert_eq!(fmt("f(# only\n)\n"), "f(\n  # only\n)\n");
}

#[test]
fn embraced_symbol_with_a_comment_is_broken() {
    assert_eq!(
        fmt("summarise(df, n = {{\n# the column\ncol\n}})\n"),
        "summarise(\n  df,\n  n = {{\n    # the column\n    col\n  }}\n)\n"
    );
}

#[test]
fn two_named_function_arguments_take_a_line_each() {
    assert_eq!(
        fmt("list(a = function() 1, b = function() 2)\n"),
        "list(\n  a = function() 1,\n  b = function() 2\n)\n"
    );
    assert_eq!(fmt("list(a = \\() 1, b = \\() 2)\n"), "list(a = \\() 1, b = \\() 2)\n");
}

#[test]
fn lone_call_argument_is_hugged() {
    assert_eq!(
        fmt_width("c(list(aaaa, bbbb))\n", 12),
        "c(list(\n  aaaa,\n  bbbb\n))\n"
    );
    assert_eq!(fmt_width("f(aaaa, bbbb)\n", 10), "f(\n  aaaa,\n  bbbb\n)\n");
    assert_eq!(fmt("f()\n"), "f()\n");
}

#[test]
fn parameter_defaults_of_several_tokens_are_parsed_and_laid_out() {
    assert_eq!(fmt("f <- function(x = c(1,2)) x\n"), "f <- function(x = c(1, 2)) x\n");
    assert_eq!(fmt("f <- function(a, b = -1) a\n"), "f <- function(a, b = -1) a\n");
    assert_eq!(fmt("f <- function(a, b = x+y) a\n"), "f <- function(a, b = x + y) a\n");
    assert_eq!(
        fmt("f <- function(x = ) 1\n"),
        "ERR ambiguous construct for formatter (function parameter default): \"\""
    );
}

#[test]
fn loop_body_on_a_later_line_is_taken_into_the_loop() {
    assert_eq!(
        fmt("for (i in x) # c\n  print(i)\n"),
        "for (i in x) {\n  # c\n  print(i)\n}\n"
    );
    assert_eq!(
        fmt("while (TRUE) # spin\n# more\nstep()\n"),
        "while (TRUE) {\n  # spin\n  # more\n  step()\n}\n"
    );
    assert_eq!(
        fmt("repeat # forever\n{\nx <- 1\n}\n"),
        "repeat {\n  # forever\n  x <- 1\n}\n"
    );
    assert_eq!(
        fmt("for (i in x) # c\n\nprint(i)\n"),
        "for (i in x) {\n  # c\n}\n\nprint(i)\n"
    );
}

#[test]
fn blank_line_before_a_loop_after_two_comment_lines() {
    assert_eq!(
        fmt("# a\n# b\nfor (i in x) y\n"),
        "# a\n# b\n\nfor (i in x) {\n  y\n}\n"
    );
    assert_eq!(
        fmt("# a\n# b\nfor (i # c1\n# c2\nin x) y\n"),
        "# a\n# b\n# c1\n# c2\nfor (i in x) {\n  y\n}\n"
    );
}

#[test]
fn multi_line_bare_function_body_stays_bare() {
    assert_eq!(
        fmt("f <- function(x) if (x) {\n1\n} else {\n2\n}\n"),
        "f <- function(x) if (x) {\n  1\n} else {\n  2\n}\n"
    );
}
