//! A parenthesised rendering of expression trees, for diagnostics.
use vstd::prelude::*;

use vstd::string::StringExecFns;

use crate::display::int_display;
use crate::display::number_string;
use crate::display::push_char;
use crate::expr::Expr;
use crate::expr::expr_size;
use crate::expr::exprs_size;
use crate::token::Lit;

verus! {

/// The text of a literal as the printer shows it.
pub open spec fn lit_text(l: Lit) -> Seq<char> {
    match l {
        Lit::Num(n) => int_display(n),
        Lit::Str(s) => s@,
        Lit::True => "true"@,
        Lit::False => "false"@,
        Lit::Nil => "nil"@,
    }
}

/// The printed form of an expression: literals and variables as
/// themselves, every operator prefix-style in parentheses.
pub open spec fn s_print_expr(e: Expr) -> Seq<char>
    decreases expr_size(e), 0nat,
{
    match e {
        Expr::Literal { value } => lit_text(value),
        Expr::Grouping { expression } => "(group "@ + s_print_expr(*expression) + ")"@,
        Expr::Unary { operator, right } => "("@ + operator.lexeme@ + " "@ + s_print_expr(*right)
            + ")"@,
        Expr::Binary { left, operator, right } => "("@ + operator.lexeme@ + " "@ + s_print_expr(
            *left,
        ) + " "@ + s_print_expr(*right) + ")"@,
        Expr::Logical { left, operator, right } => "("@ + operator.lexeme@ + " "@ + s_print_expr(
            *left,
        ) + " "@ + s_print_expr(*right) + ")"@,
        Expr::Variable { name } => name.lexeme@,
        Expr::Assign { name, value } => "(= "@ + name.lexeme@ + " "@ + s_print_expr(*value) + ")"@,
        Expr::Call { callee, paren, arguments } => "(call "@ + s_print_expr(*callee)
            + s_print_args(arguments@) + ")"@,
    }
}

/// The printed forms of an argument list, each preceded by one space.
pub open spec fn s_print_args(es: Seq<Expr>) -> Seq<char>
    decreases exprs_size(es), 1nat,
{
    if es.len() == 0 {
        Seq::empty()
    } else {
        seq![' '] + s_print_expr(es[0]) + s_print_args(es.subrange(1, es.len() as int))
    }
}

/// Rendering a syntax tree as text.
pub trait AstPrinter {
    /// The text this tree renders to.
    spec fn printed(&self) -> Seq<char>;

    /// Renders the tree, exactly as `printed` states.
    fn accept(&self) -> (s: String)
        ensures
            s@ == self.printed(),
    ;
}

impl AstPrinter for Expr {
    open spec fn printed(&self) -> Seq<char> {
        s_print_expr(*self)
    }

    fn accept(&self) -> (s: String) {
        print_expr(self)
    }
}

/// Renders one expression.
fn print_expr(e: &Expr) -> (s: String)
    ensures
        s@ == s_print_expr(*e),
    decreases expr_size(*e), 2nat,
{
    match e {
        Expr::Literal { value } => {
            match value {
                Lit::Num(n) => number_string(*n),
                Lit::Str(t) => t.clone(),
                Lit::True => "true".to_owned(),
                Lit::False => "false".to_owned(),
                Lit::Nil => "nil".to_owned(),
            }
        },
        Expr::Grouping { expression } => {
            let mut s = "(group ".to_owned();
            let inner = print_expr(&**expression);
            s.append(inner.as_str());
            push_char(&mut s, ')');
            proof {
                reveal_strlit(")");
                assert(")"@ =~= seq![')']);
                assert(s@ =~= s_print_expr(*e));
            }
            s
        },
        Expr::Unary { operator, right } => {
            let mut s = "(".to_owned();
            s.append(operator.lexeme.as_str());
            push_char(&mut s, ' ');
            let inner = print_expr(&**right);
            s.append(inner.as_str());
            push_char(&mut s, ')');
            proof {
                reveal_strlit(" ");
                reveal_strlit(")");
                assert(" "@ =~= seq![' ']);
                assert(")"@ =~= seq![')']);
                assert(s@ =~= s_print_expr(*e));
            }
            s
        },
        Expr::Binary { left, operator, right } => {
            let mut s = "(".to_owned();
            s.append(operator.lexeme.as_str());
            push_char(&mut s, ' ');
            let l = print_expr(&**left);
            s.append(l.as_str());
            push_char(&mut s, ' ');
            let r = print_expr(&**right);
            s.append(r.as_str());
            push_char(&mut s, ')');
            proof {
                reveal_strlit(" ");
                reveal_strlit(")");
                assert(" "@ =~= seq![' ']);
                assert(")"@ =~= seq![')']);
                assert(s@ =~= s_print_expr(*e));
            }
            s
        },
        Expr::Logical { left, operator, right } => {
            let mut s = "(".to_owned();
            s.append(operator.lexeme.as_str());
            push_char(&mut s, ' ');
            let l = print_expr(&**left);
            s.append(l.as_str());
            push_char(&mut s, ' ');
            let r = print_expr(&**right);
            s.append(r.as_str());
            push_char(&mut s, ')');
            proof {
                reveal_strlit(" ");
                reveal_strlit(")");
                assert(" "@ =~= seq![' ']);
                assert(")"@ =~= seq![')']);
                assert(s@ =~= s_print_expr(*e));
            }
            s
        },
        Expr::Variable { name } => name.lexeme.clone(),
        Expr::Assign { name, value } => {
            let mut s = "(= ".to_owned();
            s.append(name.lexeme.as_str());
            push_char(&mut s, ' ');
            let inner = print_expr(&**value);
            s.append(inner.as_str());
            push_char(&mut s, ')');
            proof {
                reveal_strlit(" ");
                reveal_strlit(")");
                assert(" "@ =~= seq![' ']);
                assert(")"@ =~= seq![')']);
                assert(s@ =~= s_print_expr(*e));
            }
            s
        },
        Expr::Call { callee, paren, arguments } => {
            let mut s = "(call ".to_owned();
            let c = print_expr(&**callee);
            s.append(c.as_str());
            proof {
                assert(arguments@.subrange(0, arguments@.len() as int) =~= arguments@);
            }
            let a = print_args(arguments, 0);
            s.append(a.as_str());
            push_char(&mut s, ')');
            proof {
                reveal_strlit(")");
                assert(")"@ =~= seq![')']);
                assert(s@ =~= s_print_expr(*e));
            }
            s
        },
    }
}

/// Renders the arguments `es[i..]`, each preceded by one space.
fn print_args(es: &Vec<Expr>, i: usize) -> (s: String)
    requires
        i <= es@.len(),
    ensures
        s@ == s_print_args(es@.subrange(i as int, es@.len() as int)),
    decreases exprs_size(es@.subrange(i as int, es@.len() as int)), 3nat,
{
    let ghost whole = es@.subrange(i as int, es@.len() as int);
    if i == es.len() {
        proof {
            assert(whole =~= Seq::<Expr>::empty());
        }
        String::new()
    } else {
        proof {
            assert(whole[0] == es@[i as int]);
            assert(whole.subrange(1, whole.len() as int) =~= es@.subrange(
                i as int + 1,
                es@.len() as int,
            ));
        }
        let mut s = String::new();
        push_char(&mut s, ' ');
        let first = print_expr(&es[i]);
        s.append(first.as_str());
        let rest = print_args(es, i + 1);
        s.append(rest.as_str());
        proof {
            assert(s@ =~= s_print_args(whole));
        }
        s
    }
}

} // verus!
