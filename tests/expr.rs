use cfg_lexer::error::CfgError;
use cfg_lexer::expr::{BinaryExpr, Expr, ExprVisitor, GroupingExpr, LiteralExpr, UnaryExpr};
use cfg_lexer::token::{Object, Token};
use cfg_lexer::token_type::TokenType;

struct Namer;

impl ExprVisitor<String> for Namer {
    fn visit_binary_expr(&self, expr: &BinaryExpr) -> Result<String, CfgError> {
        Ok(format!("binary {}", expr.operator.lexname))
    }
    fn visit_grouping_expr(&self, _expr: &GroupingExpr) -> Result<String, CfgError> {
        Ok("grouping".to_string())
    }
    fn visit_literal_expr(&self, expr: &LiteralExpr) -> Result<String, CfgError> {
        match &expr.value {
            Object::Num(t) => Ok(format!("literal {}", t)),
            _ => Ok("literal".to_string()),
        }
    }
    fn visit_unary_expr(&self, expr: &UnaryExpr) -> Result<String, CfgError> {
        Ok(format!("unary {}", expr.operator.lexname))
    }
}

fn num(t: &str) -> Box<Expr> {
    Box::new(Expr::Literal(LiteralExpr { value: Object::Num(t.to_string()) }))
}

#[test]
fn accept_dispatches_to_the_node_kind() {
    let plus = Token::new(TokenType::Plus, "+".to_string(), None, 1);
    let minus = Token::new(TokenType::Minus, "-".to_string(), None, 1);
    let b = BinaryExpr { left: num("1"), operator: plus, right: num("2") };
    let g = GroupingExpr { expression: num("3") };
    let l = LiteralExpr { value: Object::Num("4".to_string()) };
    let u = UnaryExpr { operator: minus, right: num("5") };
    assert_eq!(b.accept(&Namer).unwrap(), "binary +");
    assert_eq!(g.accept(&Namer).unwrap(), "grouping");
    assert_eq!(l.accept(&Namer).unwrap(), "literal 4");
    assert_eq!(u.accept(&Namer).unwrap(), "unary -");
}
