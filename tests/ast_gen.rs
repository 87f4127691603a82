use cfg_lexer::ast_gen::{define_ast, field_from_trimmed, generate_ast};

#[test]
fn generate_ast_path_and_text() {
    let (path, text) = generate_ast("out".to_string()).expect("descriptions are well formed");
    assert_eq!(path, "out/Expr.rs");
    assert!(text.starts_with("use crate::error::*;\nuse crate::token::*;\n\npub enum Expr {\n"));
    assert!(text.contains("    Binary(BinaryExpr)\n    Grouping(GroupingExpr)\n    Literal(LiteralExpr)\n    Unary(UnaryExpr)\n}\n\n"));
    assert!(text.contains(
        "pub struct BinaryExpr {\n    left: Box<Expr>,\n    operator: Token,\n    right: Box<Expr>,\n}\n\n"
    ));
    assert!(text.contains("pub struct LiteralExpr {\n    value: Object,\n}\n\n"));
    assert!(text.contains(
        "    fn visit_grouping_expr<T>(&self, expr: &GroupingExpr) -> Result<T, CfgError>;\n"
    ));
    assert!(text.ends_with(
        "impl UnaryExpr {\n    fn accept<T>(&self, visitor: dyn ExprVisitor) -> Result<T,CfgError> {\n        visitor.visit_unary_expr(self);\n    }\n}\n\n"
    ));
}

#[test]
fn define_ast_exact_text() {
    let types = vec!["  Leaf :  Token tok ".to_string()];
    let (path, text) = define_ast(&"d".to_string(), &"Tree".to_string(), &types).unwrap();
    assert_eq!(path, "d/Tree.rs");
    let expected = "use crate::error::*;\nuse crate::token::*;\n\npub enum Tree {\n    Leaf(LeafTree)\n}\n\n\
pub struct LeafTree {\n    tok: Token,\n}\n\n\
pub trait ExprVisitor<T> {\n    fn visit_leaf_tree<T>(&self, expr: &LeafTree) -> Result<T, CfgError>;\n}\n\n\
impl LeafTree {\n    fn accept<T>(&self, visitor: dyn ExprVisitor) -> Result<T,CfgError> {\n        visitor.visit_leaf_tree(self);\n    }\n}\n\n";
    assert_eq!(text, expected);
}

#[test]
fn define_ast_with_no_types() {
    let (_, text) = define_ast(&"d".to_string(), &"E".to_string(), &vec![]).unwrap();
    assert_eq!(
        text,
        "use crate::error::*;\nuse crate::token::*;\n\npub enum E {\n}\n\npub trait ExprVisitor<T> {\n}\n\n"
    );
}

#[test]
fn define_ast_rejects_missing_colon() {
    let types = vec!["Leaf Token tok".to_string()];
    assert!(define_ast(&"d".to_string(), &"T".to_string(), &types).is_none());
}

#[test]
fn define_ast_rejects_field_without_name() {
    let types = vec!["Ok : Token tok".to_string(), "Bad : Token".to_string()];
    assert!(define_ast(&"d".to_string(), &"T".to_string(), &types).is_none());
}

#[test]
fn field_from_trimmed_splits_at_first_space() {
    assert_eq!(field_from_trimmed(&"Box<Expr> left".to_string()).unwrap(), "left: Box<Expr>");
    assert_eq!(field_from_trimmed(&"Token  tok".to_string()).unwrap(), " tok: Token");
    assert!(field_from_trimmed(&"Token".to_string()).is_none());
}

#[test]
fn define_ast_trims_unicode_white_space() {
    let types = vec!["\u{3000}Leaf\u{a0}: Token tok\u{2003}".to_string()];
    let (_, text) = define_ast(&"d".to_string(), &"T".to_string(), &types).unwrap();
    assert!(text.contains("pub struct LeafT {\n    tok: Token,\n}\n"));
}
