use ravel::ast::{
    ArgList, AssignmentExpr, BinaryExpr, BlockExpr, CallExpr, ForExpr, FunctionExpr, IfExpr,
    WhileExpr,
};
use ravel::parser::parse;
use ravel::syntax::SyntaxKind;

#[test]
fn casts_core_expression_wrappers() {
    let parsed = parse(
        "x <- function(a, b) { a + b }\nz <- fn(1, 2)\nif (x) { y <- 1 + 2 }\nfor (i in 1:5) i\n",
    );
    assert!(
        parsed.diagnostics.is_empty(),
        "fixture should parse cleanly: {:?}",
        parsed.diagnostics
    );

    let mut saw_assignment = false;
    let mut saw_call = false;
    let mut saw_arg_list = false;
    let mut saw_if = false;
    let mut saw_block = false;
    let mut saw_binary = false;
    let mut saw_for = false;
    let mut saw_function = false;

    for node in parsed.cst.descendants() {
        if AssignmentExpr::cast(node.clone()).is_some() {
            saw_assignment = true;
        }
        if CallExpr::cast(node.clone()).is_some() {
            saw_call = true;
        }
        if ArgList::cast(node.clone()).is_some() {
            saw_arg_list = true;
        }
        if IfExpr::cast(node.clone()).is_some() {
            saw_if = true;
        }
        if BlockExpr::cast(node.clone()).is_some() {
            saw_block = true;
        }
        if BinaryExpr::cast(node.clone()).is_some() {
            saw_binary = true;
        }
        if ForExpr::cast(node.clone()).is_some() {
            saw_for = true;
        }
        if FunctionExpr::cast(node.clone()).is_some() {
            saw_function = true;
        }
    }

    assert!(saw_assignment);
    assert!(saw_call);
    assert!(saw_arg_list);
    assert!(saw_if);
    assert!(saw_block);
    assert!(saw_binary);
    assert!(saw_for);
    assert!(saw_function);
}

#[test]
fn control_flow_wrappers_locate_their_parentheses() {
    let parsed = parse("if (a) b else c\nfor (i in (x)) i\nwhile ((x)) y\n");
    assert!(parsed.diagnostics.is_empty());
    let mut checked = 0;
    for node in parsed.cst.descendants() {
        match node.kind {
            SyntaxKind::IF_EXPR => {
                let expr = IfExpr::cast(node.clone()).unwrap();
                let l = expr.lparen_index().unwrap();
                let r = expr.rparen_index().unwrap();
                assert!(l < r);
                assert_eq!(expr.syntax().children.len(), node.children.len());
                checked += 1;
            }
            SyntaxKind::FOR_EXPR => {
                let expr = ForExpr::cast(node.clone()).unwrap();
                let l = expr.lparen_index().unwrap();
                let (l2, r) = expr.clause_bounds().unwrap();
                assert_eq!(l, l2);
                assert!(l < r);
                checked += 1;
            }
            SyntaxKind::WHILE_EXPR => {
                let expr = WhileExpr::cast(node.clone()).unwrap();
                let (l, r) = expr.clause_bounds().unwrap();
                assert_eq!(Some(l), expr.lparen_index());
                assert!(l < r);
                checked += 1;
            }
            _ => {}
        }
    }
    assert_eq!(checked, 3);
}

#[test]
fn descendants_start_with_the_root() {
    let parsed = parse("x <- 1\n");
    let nodes = parsed.cst.descendants();
    assert_eq!(nodes[0].kind, SyntaxKind::ROOT);
    assert!(nodes.iter().any(|n| n.kind == SyntaxKind::ASSIGNMENT_EXPR));
}

#[test]
fn loop_parts_name_their_pieces() {
    let parsed = parse("for (i # idx\nin xs) # then\n{ i }\nwhile (ok) step()\nfor (j in ys) { j }\n");
    assert!(parsed.diagnostics.is_empty());
    let mut seen = 0;
    for node in parsed.cst.descendants() {
        if let Some(expr) = ForExpr::cast(node.clone()) {
            let parts = expr.parts().unwrap();
            if parts.leading_comments.is_empty() {
                assert!(matches!(parts.body, Some(ravel::syntax::SyntaxElement::Node(n)) if n.kind == SyntaxKind::BLOCK_EXPR));
                assert!(parts.post_clause_comments.is_empty());
                seen += 1;
                continue;
            }
            assert_eq!(parts.leading_comments.len(), 1);
            assert_eq!(parts.leading_comments[0].text, "# idx");
            assert_eq!(parts.variable_elements.len(), 1);
            assert_eq!(parts.sequence_elements.len(), 1);
            assert_eq!(parts.post_clause_comments.len(), 1);
            assert_eq!(parts.post_clause_comments[0].text, "# then");
            // The comment after the clause ends the loop's line: the block
            // below it is a statement of its own.
            assert!(parts.body.is_none());
            assert_eq!(expr.for_keyword().unwrap().text, "for");
            seen += 1;
        }
        if let Some(expr) = WhileExpr::cast(node.clone()) {
            let parts = expr.parts().unwrap();
            assert!(parts.leading_comments.is_empty());
            assert_eq!(parts.condition_elements.len(), 1);
            assert!(parts.body.is_some());
            assert_eq!(expr.while_keyword().unwrap().text, "while");
            seen += 1;
        }
    }
    assert_eq!(seen, 3);
}

#[test]
fn if_parts_and_call_arguments() {
    let parsed = parse("if (a) b else c\nf(x, y = 2)\n");
    assert!(parsed.diagnostics.is_empty());
    let root = ravel::ast::Root::cast(parsed.cst.clone()).unwrap();
    assert_eq!(root.expressions().len(), 2);
    for node in parsed.cst.descendants() {
        if let Some(expr) = IfExpr::cast(node.clone()) {
            assert_eq!(expr.if_keyword().unwrap().text, "if");
            assert_eq!(expr.else_keyword().unwrap().text, "else");
            assert_eq!(expr.condition_elements().unwrap().len(), 1);
            let then_part = expr.then_elements().unwrap();
            assert!(then_part.iter().any(|e| matches!(e, ravel::syntax::SyntaxElement::Token(t) if t.text == "b")));
            let else_part = expr.else_elements().unwrap();
            assert!(else_part.iter().any(|e| matches!(e, ravel::syntax::SyntaxElement::Token(t) if t.text == "c")));
        }
        if let Some(call) = CallExpr::cast(node.clone()) {
            let list = call.arg_list().unwrap();
            assert_eq!(list.args().len(), 2);
            assert_eq!(list.args()[1].syntax().text(), "y = 2");
        }
    }
}

#[test]
fn walrus_parses_as_an_assignment() {
    let parsed = parse("x := 1");
    assert!(parsed.diagnostics.is_empty());
    let nodes = parsed.cst.descendants();
    assert_eq!(nodes[1].kind, SyntaxKind::ASSIGNMENT_EXPR);
}

#[test]
fn help_operator_parses_as_unary_and_binary() {
    let unary = parse("?topic");
    assert!(unary.diagnostics.is_empty());
    assert_eq!(unary.cst.descendants()[1].kind, SyntaxKind::UNARY_EXPR);
    let binary = parse("pkg?topic");
    assert!(binary.diagnostics.is_empty());
    assert_eq!(binary.cst.descendants()[1].kind, SyntaxKind::BINARY_EXPR);
}

#[test]
fn help_operator_binds_below_assignment() {
    let parsed = parse("x <- 1 ? 2");
    assert!(parsed.diagnostics.is_empty());
    let nodes = parsed.cst.descendants();
    assert_eq!(nodes[1].kind, SyntaxKind::BINARY_EXPR);
    assert_eq!(nodes[2].kind, SyntaxKind::ASSIGNMENT_EXPR);
}

#[test]
fn unary_minus_binds_tighter_than_plus() {
    let parsed = parse("-a+b");
    assert!(parsed.diagnostics.is_empty());
    let nodes = parsed.cst.descendants();
    assert_eq!(nodes[1].kind, SyntaxKind::BINARY_EXPR);
    assert_eq!(nodes[2].kind, SyntaxKind::UNARY_EXPR);
}
