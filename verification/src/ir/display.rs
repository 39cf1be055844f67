//! Source text of operators, constants and leaf operands.

use super::model::{Const, Val};
use super::{BinaryOp, Constant, UnaryOp, Value};
use crate::names;
use crate::text;
use vstd::prelude::*;

verus! {

impl BinaryOp {
    /// How tightly the operator binds; a higher number binds tighter.
    pub open spec fn rank(self) -> u8 {
        match self {
            BinaryOp::NullishCoalescing => 3,
            BinaryOp::LogicalOr => 4,
            BinaryOp::LogicalAnd => 5,
            BinaryOp::BitOr => 6,
            BinaryOp::BitXor => 7,
            BinaryOp::BitAnd => 8,
            BinaryOp::Eq => 9,
            BinaryOp::Neq => 9,
            BinaryOp::StrictEq => 9,
            BinaryOp::StrictNeq => 9,
            BinaryOp::Lt => 10,
            BinaryOp::Le => 10,
            BinaryOp::Gt => 10,
            BinaryOp::Ge => 10,
            BinaryOp::In => 10,
            BinaryOp::InstanceOf => 10,
            BinaryOp::Shl => 11,
            BinaryOp::Shr => 11,
            BinaryOp::UShr => 11,
            BinaryOp::Add => 12,
            BinaryOp::Sub => 12,
            BinaryOp::Mul => 13,
            BinaryOp::Div => 13,
            BinaryOp::Mod => 13,
            BinaryOp::Exp => 15,
        }
    }

    pub fn precedence(self) -> (r: u8)
        ensures
            r == self.rank(),
            r <= 15,
    {
        match self {
            BinaryOp::NullishCoalescing => 3,
            BinaryOp::LogicalOr => 4,
            BinaryOp::LogicalAnd => 5,
            BinaryOp::BitOr => 6,
            BinaryOp::BitXor => 7,
            BinaryOp::BitAnd => 8,
            BinaryOp::Eq | BinaryOp::Neq | BinaryOp::StrictEq | BinaryOp::StrictNeq => 9,
            BinaryOp::Lt | BinaryOp::Le | BinaryOp::Gt | BinaryOp::Ge => 10,
            BinaryOp::In | BinaryOp::InstanceOf => 10,
            BinaryOp::Shl | BinaryOp::Shr | BinaryOp::UShr => 11,
            BinaryOp::Add | BinaryOp::Sub => 12,
            BinaryOp::Mul | BinaryOp::Div | BinaryOp::Mod => 13,
            BinaryOp::Exp => 15,
        }
    }

    /// The operator's source text.
    pub open spec fn symbol(self) -> Seq<char> {
        match self {
            BinaryOp::Add => "+"@,
            BinaryOp::Sub => "-"@,
            BinaryOp::Mul => "*"@,
            BinaryOp::Div => "/"@,
            BinaryOp::Mod => "%"@,
            BinaryOp::Exp => "**"@,
            BinaryOp::BitAnd => "&"@,
            BinaryOp::BitOr => "|"@,
            BinaryOp::BitXor => "^"@,
            BinaryOp::Shl => "<<"@,
            BinaryOp::Shr => ">>"@,
            BinaryOp::UShr => ">>>"@,
            BinaryOp::Eq => "=="@,
            BinaryOp::Neq => "!="@,
            BinaryOp::StrictEq => "==="@,
            BinaryOp::StrictNeq => "!=="@,
            BinaryOp::Lt => "<"@,
            BinaryOp::Le => "<="@,
            BinaryOp::Gt => ">"@,
            BinaryOp::Ge => ">="@,
            BinaryOp::LogicalAnd => "&&"@,
            BinaryOp::LogicalOr => "||"@,
            BinaryOp::NullishCoalescing => "??"@,
            BinaryOp::In => "in"@,
            BinaryOp::InstanceOf => "instanceof"@,
        }
    }

    pub fn text(self) -> (r: &'static str)
        ensures
            r@ == self.symbol(),
    {
        match self {
            BinaryOp::Add => "+",
            BinaryOp::Sub => "-",
            BinaryOp::Mul => "*",
            BinaryOp::Div => "/",
            BinaryOp::Mod => "%",
            BinaryOp::Exp => "**",
            BinaryOp::BitAnd => "&",
            BinaryOp::BitOr => "|",
            BinaryOp::BitXor => "^",
            BinaryOp::Shl => "<<",
            BinaryOp::Shr => ">>",
            BinaryOp::UShr => ">>>",
            BinaryOp::Eq => "==",
            BinaryOp::Neq => "!=",
            BinaryOp::StrictEq => "===",
            BinaryOp::StrictNeq => "!==",
            BinaryOp::Lt => "<",
            BinaryOp::Le => "<=",
            BinaryOp::Gt => ">",
            BinaryOp::Ge => ">=",
            BinaryOp::LogicalAnd => "&&",
            BinaryOp::LogicalOr => "||",
            BinaryOp::NullishCoalescing => "??",
            BinaryOp::In => "in",
            BinaryOp::InstanceOf => "instanceof",
        }
    }

    /// The comparison that holds exactly when this one does not.
    pub open spec fn opposite(self) -> Option<BinaryOp> {
        match self {
            BinaryOp::Eq => Some(BinaryOp::Neq),
            BinaryOp::Neq => Some(BinaryOp::Eq),
            BinaryOp::StrictEq => Some(BinaryOp::StrictNeq),
            BinaryOp::StrictNeq => Some(BinaryOp::StrictEq),
            BinaryOp::Lt => Some(BinaryOp::Ge),
            BinaryOp::Le => Some(BinaryOp::Gt),
            BinaryOp::Gt => Some(BinaryOp::Le),
            BinaryOp::Ge => Some(BinaryOp::Lt),
            _ => None,
        }
    }

    pub fn negated(self) -> (r: Option<BinaryOp>)
        ensures
            r == self.opposite(),
    {
        match self {
            BinaryOp::Eq => Some(BinaryOp::Neq),
            BinaryOp::Neq => Some(BinaryOp::Eq),
            BinaryOp::StrictEq => Some(BinaryOp::StrictNeq),
            BinaryOp::StrictNeq => Some(BinaryOp::StrictEq),
            BinaryOp::Lt => Some(BinaryOp::Ge),
            BinaryOp::Le => Some(BinaryOp::Gt),
            BinaryOp::Gt => Some(BinaryOp::Le),
            BinaryOp::Ge => Some(BinaryOp::Lt),
            _ => None,
        }
    }
}

/// Negating a comparison twice gives it back, and its operand layout never changes.
pub proof fn lemma_opposite_is_involutive(op: BinaryOp)
    ensures
        op.opposite() matches Some(neg) ==> neg.opposite() == Some(op) && neg.rank() == op.rank(),
{
}

impl UnaryOp {
    /// The operator's source text, with the space that a word operator needs.
    pub open spec fn symbol(self) -> Seq<char> {
        match self {
            UnaryOp::Not => "!"@,
            UnaryOp::Neg => "-"@,
            UnaryOp::Plus => "+"@,
            UnaryOp::BitNot => "~"@,
            UnaryOp::TypeOf => "typeof "@,
            UnaryOp::Void => "void "@,
            UnaryOp::Delete => "delete "@,
        }
    }

    pub fn text(self) -> (r: &'static str)
        ensures
            r@ == self.symbol(),
    {
        match self {
            UnaryOp::Not => "!",
            UnaryOp::Neg => "-",
            UnaryOp::Plus => "+",
            UnaryOp::BitNot => "~",
            UnaryOp::TypeOf => "typeof ",
            UnaryOp::Void => "void ",
            UnaryOp::Delete => "delete ",
        }
    }
}

/// The source text of a constant.
pub open spec fn const_text(c: Const) -> Seq<char> {
    match c {
        Const::Undefined => "undefined"@,
        Const::Null => "null"@,
        Const::Bool(b) => if b {
            "true"@
        } else {
            "false"@
        },
        Const::Integer(n) => text::decimal_int(n as int),
        Const::Number(n) => n.text,
        Const::String(s) => names::quoted(s),
        Const::BigInt(s) => s + "n"@,
    }
}

/// The source text of a leaf operand.
pub open spec fn val_text(v: Val) -> Seq<char> {
    match v {
        Val::Register(n) => names::register_name(n),
        Val::Parameter(n) => names::numbered("arg"@, n as nat),
        Val::Variable(s) => names::sanitized(s),
        Val::ClosureVar { depth, slot } => names::numbered("closure_"@, depth as nat) + "_"@
            + text::decimal(slot as nat),
        Val::Constant(c) => const_text(c),
        Val::Global => "globalThis"@,
        Val::This => "this"@,
        Val::NewTarget => "new.target"@,
        Val::Super => "super"@,
    }
}

impl Constant {
    pub fn text(&self) -> (r: String)
        ensures
            r@ == const_text(self@),
    {
        match self {
            Constant::Undefined => "undefined".to_owned(),
            Constant::Null => "null".to_owned(),
            Constant::Bool(b) => if *b {
                "true".to_owned()
            } else {
                "false".to_owned()
            },
            Constant::Integer(n) => text::decimal_of_int(*n as i64),
            Constant::Number(n) => n.text.clone(),
            Constant::String(s) => names::quote(s),
            Constant::BigInt(s) => text::concat2(s, "n"),
        }
    }
}

impl Value {
    pub fn text(&self) -> (r: String)
        ensures
            r@ == val_text(self@),
    {
        match self {
            Value::Register(n) => names::name_of_register(*n),
            Value::Parameter(n) => names::number_name("arg", *n as u64),
            Value::Variable(s) => names::sanitize_identifier(s),
            Value::ClosureVar { depth, slot } => text::concat3(
                &names::number_name("closure_", *depth as u64),
                "_",
                &text::decimal_of(*slot as u64),
            ),
            Value::Constant(c) => c.text(),
            Value::Global => "globalThis".to_owned(),
            Value::This => "this".to_owned(),
            Value::NewTarget => "new.target".to_owned(),
            Value::Super => "super".to_owned(),
        }
    }
}

} // verus!
