use ravel::formatter::FormatStyle;
use ravel::formatter::ir::Ir;
use ravel::formatter::printer::Printer;

/// A block that always breaks: `{`, an indented body, then `}`.
fn block() -> Ir {
    Ir::concat(vec![
        Ir::text("{"),
        Ir::indent(Ir::concat(vec![Ir::hard_line(), Ir::text("body")])),
        Ir::hard_line(),
        Ir::text("}"),
    ])
}

/// `f(a, {block})` as a hug group: prefix `f(a, ` then a trailing block.
fn hug_call() -> Ir {
    Ir::group_hug(Ir::concat(vec![
        Ir::text("f("),
        Ir::indent(Ir::concat(vec![
            Ir::soft_line(),
            Ir::text("a"),
            Ir::if_break(Ir::text(", "), Ir::text(",")),
        ])),
        Ir::if_break(block(), Ir::indent(Ir::concat(vec![Ir::soft_line(), block()]))),
        Ir::soft_line(),
        Ir::text(")"),
    ]))
}

#[test]
fn hug_group_keeps_prefix_flat_when_it_fits() {
    let printer = Printer::new(FormatStyle::default());
    assert_eq!(printer.print(&hug_call()), "f(a, {\n  body\n})");
}

#[test]
fn hug_group_expands_when_prefix_does_not_fit() {
    let style = FormatStyle {
        line_width: 5,
        indent_width: 2,
    };
    let printer = Printer::new(style);
    assert_eq!(
        printer.print(&hug_call()),
        "f(\n  a,\n  {\n    body\n  }\n)"
    );
}

#[test]
fn hug_group_expands_when_prefix_has_a_comment() {
    let printer = Printer::new(FormatStyle::default());
    let ir = Ir::group_hug(Ir::concat(vec![
        Ir::text("f("),
        Ir::indent(Ir::concat(vec![
            Ir::soft_line(),
            Ir::verbatim_forced("# c"),
            Ir::hard_line(),
            Ir::text("a"),
            Ir::if_break(Ir::text(", "), Ir::text(",")),
        ])),
        Ir::if_break(block(), Ir::indent(Ir::concat(vec![Ir::soft_line(), block()]))),
        Ir::soft_line(),
        Ir::text(")"),
    ]));
    assert_eq!(printer.print(&ir), "f(\n  # c\n  a,\n  {\n    body\n  }\n)");
}

/// `f` then a group whose flat form is `(<long>)` and whose broken form puts
/// `<long>` on a line of its own.
fn nested_breakable_group(width: usize) -> Ir {
    let long = "x".repeat(width);
    let inner = Ir::group(Ir::concat(vec![
        Ir::text("("),
        Ir::indent(Ir::concat(vec![Ir::soft_line(), Ir::text(&long)])),
        Ir::soft_line(),
        Ir::text(")"),
    ]));
    Ir::concat(vec![Ir::text("f"), inner])
}

#[test]
fn conditional_group_single_candidate_flat_when_first_line_fits() {
    let style = FormatStyle {
        line_width: 10,
        indent_width: 2,
    };
    let printer = Printer::new(style);
    let ir = Ir::conditional_group(vec![nested_breakable_group(20)]);
    assert_eq!(printer.print(&ir), "f(\n  xxxxxxxxxxxxxxxxxxxx\n)");
}

#[test]
fn conditional_group_single_candidate_breaks_when_first_line_does_not_fit() {
    let style = FormatStyle {
        line_width: 5,
        indent_width: 2,
    };
    let printer = Printer::new(style);
    let ir = Ir::conditional_group(vec![Ir::concat(vec![
        Ir::text("verylong"),
        Ir::line(),
        Ir::text("x"),
    ])]);
    assert_eq!(printer.print(&ir), "verylong\nx");
}

#[test]
fn conditional_group_picks_first_fitting_candidate() {
    let style = FormatStyle {
        line_width: 6,
        indent_width: 2,
    };
    let printer = Printer::new(style);
    let c0 = Ir::text("toolongtofit");
    let c1 = Ir::text("ok");
    let c2 = Ir::concat(vec![Ir::text("fallback"), Ir::hard_line(), Ir::text("more")]);
    let ir = Ir::conditional_group(vec![c0, c1, c2]);
    assert_eq!(printer.print(&ir), "ok");
}

#[test]
fn conditional_group_falls_back_to_last_in_break_mode() {
    let style = FormatStyle {
        line_width: 4,
        indent_width: 2,
    };
    let printer = Printer::new(style);
    let c0 = Ir::text("toolongtofit");
    let c1 = Ir::text("alsotoolong");
    let c2 = Ir::concat(vec![Ir::text("ab"), Ir::line(), Ir::text("cd")]);
    let ir = Ir::conditional_group(vec![c0, c1, c2]);
    assert_eq!(printer.print(&ir), "ab\ncd");
}

#[test]
fn group_with_forced_break_prints_broken_even_when_short() {
    let printer = Printer::new(FormatStyle::default());
    let ir = Ir::group(Ir::concat(vec![
        Ir::text("a"),
        Ir::line(),
        Ir::verbatim_forced("# c"),
    ]));
    assert_eq!(printer.print(&ir), "a\n# c");
}

#[test]
fn blank_lines_carry_no_indent() {
    let printer = Printer::new(FormatStyle::default());
    let ir = Ir::indent(Ir::concat(vec![
        Ir::text("a"),
        Ir::empty_line(),
        Ir::text("b"),
        Ir::hard_line(),
        Ir::hard_line(),
        Ir::text("c"),
    ]));
    assert_eq!(printer.print(&ir), "a\n\n  b\n\n  c");
}

#[test]
fn print_at_measures_from_the_indented_column() {
    let style = FormatStyle {
        line_width: 10,
        indent_width: 4,
    };
    let printer = Printer::new(style);
    let ir = Ir::group(Ir::concat(vec![Ir::text("abc"), Ir::line(), Ir::text("def")]));
    assert_eq!(printer.print(&ir), "abc def");
    assert_eq!(printer.print_at(&ir, 1), "abc\n    def");
}

#[test]
fn verbatim_keeps_its_lines_and_later_text_follows_its_last_line() {
    let printer = Printer::new(FormatStyle::default());
    let ir = Ir::concat(vec![Ir::verbatim("x <- {\n  1\n}"), Ir::text(" # end")]);
    assert_eq!(printer.print(&ir), "x <- {\n  1\n} # end");
}

#[test]
fn concat_drops_nil_items_and_join_interleaves() {
    let printer = Printer::new(FormatStyle::default());
    let ir = Ir::concat(vec![Ir::nil(), Ir::text("a"), Ir::nil()]);
    assert_eq!(printer.print(&ir), "a");
    let joined = Ir::join(
        Ir::text(", "),
        vec![Ir::text("x"), Ir::text("y"), Ir::text("z")],
    );
    assert_eq!(printer.print(&joined), "x, y, z");
    assert!(!joined.contains_forced_break());
    assert!(Ir::concat(vec![Ir::text("a"), Ir::hard_line()]).contains_forced_break());
}

#[test]
fn fitting_group_prints_its_flat_text() {
    let call = || {
        Ir::group(Ir::concat(vec![
            Ir::text("f("),
            Ir::indent(Ir::concat(vec![
                Ir::soft_line(),
                Ir::text("a,"),
                Ir::line(),
                Ir::text("b"),
            ])),
            Ir::soft_line(),
            Ir::text(")"),
        ]))
    };
    let wide = Printer::new(FormatStyle {
        line_width: 7,
        indent_width: 2,
    });
    assert_eq!(wide.print(&call()), "f(a, b)");
    let narrow = Printer::new(FormatStyle {
        line_width: 6,
        indent_width: 2,
    });
    assert_eq!(narrow.print(&call()), "f(\n  a,\n  b\n)");
}

#[test]
fn blank_lines_inside_an_indent_carry_no_spaces() {
    let doc = Ir::concat(vec![
        Ir::text("{"),
        Ir::indent(Ir::concat(vec![
            Ir::hard_line(),
            Ir::text("a"),
            Ir::empty_line(),
            Ir::text("b"),
            Ir::hard_line(),
            Ir::hard_line(),
            Ir::text("c"),
        ])),
        Ir::hard_line(),
        Ir::text("}"),
    ]);
    let printer = Printer::new(FormatStyle::default());
    assert_eq!(printer.print(&doc), "{\n  a\n\n  b\n\n  c\n}");
}

#[test]
fn multi_line_verbatim_is_measured_by_its_first_line() {
    let p = Printer::new(FormatStyle { line_width: 10, indent_width: 2 });
    let ir = Ir::conditional_group(vec![
        Ir::concat(vec![Ir::text("f("), Ir::verbatim("a\nb")]),
        Ir::text("other"),
    ]);
    assert_eq!(p.print(&ir), "f(a\nb");
}

#[test]
fn multi_line_verbatim_whose_first_line_is_too_wide_does_not_fit() {
    let p = Printer::new(FormatStyle { line_width: 4, indent_width: 2 });
    let ir = Ir::conditional_group(vec![
        Ir::concat(vec![Ir::text("f("), Ir::verbatim("abc\nb")]),
        Ir::text("other"),
    ]);
    assert_eq!(p.print(&ir), "other");
}

#[test]
fn single_line_forced_verbatim_never_fits_a_first_line() {
    let p = Printer::new(FormatStyle { line_width: 80, indent_width: 2 });
    let ir = Ir::conditional_group(vec![
        Ir::concat(vec![Ir::text("f("), Ir::verbatim_forced("# c")]),
        Ir::text("other"),
    ]);
    assert_eq!(p.print(&ir), "other");
}

#[test]
fn pick_candidate_takes_the_first_whose_first_line_fits() {
    let p = Printer::new(FormatStyle { line_width: 2, indent_width: 2 });
    let cands = vec![Ir::text("aaaa"), Ir::text("b"), Ir::text("c")];
    let (_, k) = p.pick_candidate(0, &cands);
    assert_eq!(k, 1);
}
