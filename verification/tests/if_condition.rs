use plait::ast::{ElseBranch, IfCondition, Node};
use plait::parse::parse_if_condition;
use plait::ParseError;

fn parse_if(input: &str) -> Result<IfCondition, ParseError> {
    parse_if_condition(input)
}

#[test]
fn test_simple_if_with_empty_body() {
    let input = "if true {}";
    let result = parse_if(input).unwrap();

    assert!(result.then_branch.is_empty());
    assert!(result.else_branch.is_none());
}

#[test]
fn test_simple_if_with_text_body() {
    let input = "if show { \"Hello\" }";
    let result = parse_if(input).unwrap();

    assert_eq!(result.then_branch.len(), 1);
    assert!(matches!(result.then_branch[0], Node::Text(_)));
    assert!(result.else_branch.is_none());
}

#[test]
fn test_if_with_multiple_nodes() {
    let input = "if show { \"Hello\" \"World\" }";
    let result = parse_if(input).unwrap();

    assert_eq!(result.then_branch.len(), 2);
    assert!(matches!(result.then_branch[0], Node::Text(_)));
    assert!(matches!(result.then_branch[1], Node::Text(_)));
}

#[test]
fn test_if_else_with_text() {
    let input = "if show { \"Yes\" } @else { \"No\" }";
    let result = parse_if(input).unwrap();

    assert_eq!(result.then_branch.len(), 1);
    assert!(matches!(result.then_branch[0], Node::Text(_)));

    match &result.else_branch {
        Some(ElseBranch::Else(nodes)) => {
            assert_eq!(nodes.len(), 1);
            assert!(matches!(nodes[0], Node::Text(_)));
        }
        _ => panic!("expected ElseBranch::Else"),
    }
}

#[test]
fn test_if_else_with_empty_branches() {
    let input = "if condition {} @else {}";
    let result = parse_if(input).unwrap();

    assert!(result.then_branch.is_empty());
    match &result.else_branch {
        Some(ElseBranch::Else(nodes)) => assert!(nodes.is_empty()),
        _ => panic!("expected ElseBranch::Else"),
    }
}

#[test]
fn test_if_else_if() {
    let input = "if a { \"A\" } @else if b { \"B\" }";
    let result = parse_if(input).unwrap();

    assert_eq!(result.then_branch.len(), 1);

    match &result.else_branch {
        Some(ElseBranch::If(else_if)) => {
            assert_eq!(else_if.then_branch.len(), 1);
            assert!(else_if.else_branch.is_none());
        }
        _ => panic!("expected ElseBranch::If"),
    }
}

#[test]
fn test_if_else_if_else() {
    let input = "if a { \"A\" } @else if b { \"B\" } @else { \"C\" }";
    let result = parse_if(input).unwrap();

    assert_eq!(result.then_branch.len(), 1);

    match &result.else_branch {
        Some(ElseBranch::If(else_if)) => {
            assert_eq!(else_if.then_branch.len(), 1);
            match &else_if.else_branch {
                Some(ElseBranch::Else(nodes)) => {
                    assert_eq!(nodes.len(), 1);
                }
                _ => panic!("expected ElseBranch::Else in else-if"),
            }
        }
        _ => panic!("expected ElseBranch::If"),
    }
}

#[test]
fn test_multiple_else_if_chain() {
    let input = "if a { \"A\" } @else if b { \"B\" } @else if c { \"C\" } @else { \"D\" }";
    let result = parse_if(input).unwrap();

    // First if
    match &result.else_branch {
        Some(ElseBranch::If(else_if_b)) => {
            // else if b
            match &else_if_b.else_branch {
                Some(ElseBranch::If(else_if_c)) => {
                    // else if c
                    match &else_if_c.else_branch {
                        Some(ElseBranch::Else(nodes)) => {
                            assert_eq!(nodes.len(), 1);
                        }
                        _ => panic!("expected final ElseBranch::Else"),
                    }
                }
                _ => panic!("expected ElseBranch::If for 'c'"),
            }
        }
        _ => panic!("expected ElseBranch::If for 'b'"),
    }
}

#[test]
fn test_if_let_some_condition() {
    let input = "if let Some(x) = opt { \"Has value\" }";
    let result = parse_if(input).unwrap();

    assert_eq!(result.then_branch.len(), 1);
    assert!(result.else_branch.is_none());
}

#[test]
fn test_if_let_with_else() {
    let input = "if let Some(x) = opt { \"Has value\" } @else { \"None\" }";
    let result = parse_if(input).unwrap();

    assert_eq!(result.then_branch.len(), 1);
    assert!(matches!(result.else_branch, Some(ElseBranch::Else(_))));
}

#[test]
fn test_complex_condition() {
    let input = "if a && b || c { \"Complex\" }";
    let result = parse_if(input).unwrap();

    assert_eq!(result.then_branch.len(), 1);
}

#[test]
fn test_comparison_condition() {
    let input = "if count > 0 { \"Has items\" }";
    let result = parse_if(input).unwrap();

    assert_eq!(result.then_branch.len(), 1);
}

#[test]
fn test_method_call_condition() {
    let input = "if list.is_empty() { \"Empty\" }";
    let result = parse_if(input).unwrap();

    assert_eq!(result.then_branch.len(), 1);
}

#[test]
fn test_if_with_expression_body() {
    let input = "if show { (value) }";
    let result = parse_if(input).unwrap();

    assert_eq!(result.then_branch.len(), 1);
    assert!(matches!(result.then_branch[0], Node::Expression(_)));
}

#[test]
fn test_error_missing_condition() {
    let input = "if {}";
    let result = parse_if(input);
    assert!(result.is_err());
}

#[test]
fn test_error_missing_braces() {
    let input = "if true \"text\"";
    let result = parse_if(input);
    assert!(result.is_err());
}
