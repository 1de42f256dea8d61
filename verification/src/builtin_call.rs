//! The closed table of primitive operations: signed and unsigned 32/64-bit
//! arithmetic, comparisons and bitwise operations, evaluated over `Value`s.

use vstd::prelude::*;
use crate::interp::Value;

verus! {

/// Name of a primitive operation. The operand width and signedness is part
/// of the name; arity is two for every operation except the bitwise nots.
#[derive(Debug, Clone, Copy, PartialEq, Eq, Hash, Structural)]
pub enum BuiltinOp {
    I32Add,
    I32Sub,
    I32Mul,
    I32Div,
    I32Eq,
    I32Gt,
    I32Geq,
    I32Lt,
    I32Leq,
    I32And,
    I32Or,
    I32Xor,
    I32Not,
    I64Add,
    I64Sub,
    I64Mul,
    I64Div,
    I64Eq,
    I64Gt,
    I64Geq,
    I64Lt,
    I64Leq,
    I64And,
    I64Or,
    I64Xor,
    I64Not,
    U32Add,
    U32Sub,
    U32Mul,
    U32Div,
    U32Eq,
    U32Gt,
    U32Geq,
    U32Lt,
    U32Leq,
    U32And,
    U32Or,
    U32Xor,
    U32Not,
    U64Add,
    U64Sub,
    U64Mul,
    U64Div,
    U64Eq,
    U64Gt,
    U64Geq,
    U64Lt,
    U64Leq,
    U64And,
    U64Or,
    U64Xor,
    U64Not,
}

/// The two operands of a binary signed 32-bit operation, if the argument
/// list has exactly that shape.
pub open spec fn spec_i32_pair(args: Seq<Value>) -> Option<(i32, i32)> {
    if args.len() == 2 {
        match (args[0], args[1]) {
            (Value::I32(a), Value::I32(b)) => Some((a, b)),
            _ => None,
        }
    } else {
        None
    }
}

/// The two operands of a binary signed 64-bit operation.
pub open spec fn spec_i64_pair(args: Seq<Value>) -> Option<(i64, i64)> {
    if args.len() == 2 {
        match (args[0], args[1]) {
            (Value::I64(a), Value::I64(b)) => Some((a, b)),
            _ => None,
        }
    } else {
        None
    }
}

/// The two operands of a binary unsigned 32-bit operation.
pub open spec fn spec_u32_pair(args: Seq<Value>) -> Option<(u32, u32)> {
    if args.len() == 2 {
        match (args[0], args[1]) {
            (Value::U32(a), Value::U32(b)) => Some((a, b)),
            _ => None,
        }
    } else {
        None
    }
}

/// The two operands of a binary unsigned 64-bit operation.
pub open spec fn spec_u64_pair(args: Seq<Value>) -> Option<(u64, u64)> {
    if args.len() == 2 {
        match (args[0], args[1]) {
            (Value::U64(a), Value::U64(b)) => Some((a, b)),
            _ => None,
        }
    } else {
        None
    }
}

/// What `builtin_call` returns: `Some` of the operation's result on
/// arguments of the right arity and width, `None` on an arity or type
/// mismatch, on overflow, and on division by zero.
pub open spec fn spec_builtin_call(op: BuiltinOp, args: Seq<Value>) -> Option<Value> {
    match op {
        BuiltinOp::I32Add => match spec_i32_pair(args) {
            Some((a, b)) => match a.checked_add(b) {
                Some(v) => Some(Value::I32(v)),
                None => None,
            },
            None => None,
        },
        BuiltinOp::I32Sub => match spec_i32_pair(args) {
            Some((a, b)) => match a.checked_sub(b) {
                Some(v) => Some(Value::I32(v)),
                None => None,
            },
            None => None,
        },
        BuiltinOp::I32Mul => match spec_i32_pair(args) {
            Some((a, b)) => match a.checked_mul(b) {
                Some(v) => Some(Value::I32(v)),
                None => None,
            },
            None => None,
        },
        BuiltinOp::I32Div => match spec_i32_pair(args) {
            Some((a, b)) => match a.checked_div(b) {
                Some(v) => Some(Value::I32(v)),
                None => None,
            },
            None => None,
        },
        BuiltinOp::I32Eq => match spec_i32_pair(args) {
            Some((a, b)) => Some(Value::Bool(a == b)),
            None => None,
        },
        BuiltinOp::I32Gt => match spec_i32_pair(args) {
            Some((a, b)) => Some(Value::Bool(a > b)),
            None => None,
        },
        BuiltinOp::I32Geq => match spec_i32_pair(args) {
            Some((a, b)) => Some(Value::Bool(a >= b)),
            None => None,
        },
        BuiltinOp::I32Lt => match spec_i32_pair(args) {
            Some((a, b)) => Some(Value::Bool(a < b)),
            None => None,
        },
        BuiltinOp::I32Leq => match spec_i32_pair(args) {
            Some((a, b)) => Some(Value::Bool(a <= b)),
            None => None,
        },
        BuiltinOp::I32And => match spec_i32_pair(args) {
            Some((a, b)) => Some(Value::I32(a & b)),
            None => None,
        },
        BuiltinOp::I32Or => match spec_i32_pair(args) {
            Some((a, b)) => Some(Value::I32(a | b)),
            None => None,
        },
        BuiltinOp::I32Xor => match spec_i32_pair(args) {
            Some((a, b)) => Some(Value::I32(a ^ b)),
            None => None,
        },
        BuiltinOp::I32Not => if args.len() == 1 {
            match args[0] {
                Value::I32(a) => Some(Value::I32(!a)),
                _ => None,
            }
        } else {
            None
        },
        BuiltinOp::I64Add => match spec_i64_pair(args) {
            Some((a, b)) => match a.checked_add(b) {
                Some(v) => Some(Value::I64(v)),
                None => None,
            },
            None => None,
        },
        BuiltinOp::I64Sub => match spec_i64_pair(args) {
            Some((a, b)) => match a.checked_sub(b) {
                Some(v) => Some(Value::I64(v)),
                None => None,
            },
            None => None,
        },
        BuiltinOp::I64Mul => match spec_i64_pair(args) {
            Some((a, b)) => match a.checked_mul(b) {
                Some(v) => Some(Value::I64(v)),
                None => None,
            },
            None => None,
        },
        BuiltinOp::I64Div => match spec_i64_pair(args) {
            Some((a, b)) => match a.checked_div(b) {
                Some(v) => Some(Value::I64(v)),
                None => None,
            },
            None => None,
        },
        BuiltinOp::I64Eq => match spec_i64_pair(args) {
            Some((a, b)) => Some(Value::Bool(a == b)),
            None => None,
        },
        BuiltinOp::I64Gt => match spec_i64_pair(args) {
            Some((a, b)) => Some(Value::Bool(a > b)),
            None => None,
        },
        BuiltinOp::I64Geq => match spec_i64_pair(args) {
            Some((a, b)) => Some(Value::Bool(a >= b)),
            None => None,
        },
        BuiltinOp::I64Lt => match spec_i64_pair(args) {
            Some((a, b)) => Some(Value::Bool(a < b)),
            None => None,
        },
        BuiltinOp::I64Leq => match spec_i64_pair(args) {
            Some((a, b)) => Some(Value::Bool(a <= b)),
            None => None,
        },
        BuiltinOp::I64And => match spec_i64_pair(args) {
            Some((a, b)) => Some(Value::I64(a & b)),
            None => None,
        },
        BuiltinOp::I64Or => match spec_i64_pair(args) {
            Some((a, b)) => Some(Value::I64(a | b)),
            None => None,
        },
        BuiltinOp::I64Xor => match spec_i64_pair(args) {
            Some((a, b)) => Some(Value::I64(a ^ b)),
            None => None,
        },
        BuiltinOp::I64Not => if args.len() == 1 {
            match args[0] {
                Value::I64(a) => Some(Value::I64(!a)),
                _ => None,
            }
        } else {
            None
        },
        BuiltinOp::U32Add => match spec_u32_pair(args) {
            Some((a, b)) => match a.checked_add(b) {
                Some(v) => Some(Value::U32(v)),
                None => None,
            },
            None => None,
        },
        BuiltinOp::U32Sub => match spec_u32_pair(args) {
            Some((a, b)) => match a.checked_sub(b) {
                Some(v) => Some(Value::U32(v)),
                None => None,
            },
            None => None,
        },
        BuiltinOp::U32Mul => match spec_u32_pair(args) {
            Some((a, b)) => match a.checked_mul(b) {
                Some(v) => Some(Value::U32(v)),
                None => None,
            },
            None => None,
        },
        BuiltinOp::U32Div => match spec_u32_pair(args) {
            Some((a, b)) => match a.checked_div(b) {
                Some(v) => Some(Value::U32(v)),
                None => None,
            },
            None => None,
        },
        BuiltinOp::U32Eq => match spec_u32_pair(args) {
            Some((a, b)) => Some(Value::Bool(a == b)),
            None => None,
        },
        BuiltinOp::U32Gt => match spec_u32_pair(args) {
            Some((a, b)) => Some(Value::Bool(a > b)),
            None => None,
        },
        BuiltinOp::U32Geq => match spec_u32_pair(args) {
            Some((a, b)) => Some(Value::Bool(a >= b)),
            None => None,
        },
        BuiltinOp::U32Lt => match spec_u32_pair(args) {
            Some((a, b)) => Some(Value::Bool(a < b)),
            None => None,
        },
        BuiltinOp::U32Leq => match spec_u32_pair(args) {
            Some((a, b)) => Some(Value::Bool(a <= b)),
            None => None,
        },
        BuiltinOp::U32And => match spec_u32_pair(args) {
            Some((a, b)) => Some(Value::U32(a & b)),
            None => None,
        },
        BuiltinOp::U32Or => match spec_u32_pair(args) {
            Some((a, b)) => Some(Value::U32(a | b)),
            None => None,
        },
        BuiltinOp::U32Xor => match spec_u32_pair(args) {
            Some((a, b)) => Some(Value::U32(a ^ b)),
            None => None,
        },
        BuiltinOp::U32Not => if args.len() == 1 {
            match args[0] {
                Value::U32(a) => Some(Value::U32(!a)),
                _ => None,
            }
        } else {
            None
        },
        BuiltinOp::U64Add => match spec_u64_pair(args) {
            Some((a, b)) => match a.checked_add(b) {
                Some(v) => Some(Value::U64(v)),
                None => None,
            },
            None => None,
        },
        BuiltinOp::U64Sub => match spec_u64_pair(args) {
            Some((a, b)) => match a.checked_sub(b) {
                Some(v) => Some(Value::U64(v)),
                None => None,
            },
            None => None,
        },
        BuiltinOp::U64Mul => match spec_u64_pair(args) {
            Some((a, b)) => match a.checked_mul(b) {
                Some(v) => Some(Value::U64(v)),
                None => None,
            },
            None => None,
        },
        BuiltinOp::U64Div => match spec_u64_pair(args) {
            Some((a, b)) => match a.checked_div(b) {
                Some(v) => Some(Value::U64(v)),
                None => None,
            },
            None => None,
        },
        BuiltinOp::U64Eq => match spec_u64_pair(args) {
            Some((a, b)) => Some(Value::Bool(a == b)),
            None => None,
        },
        BuiltinOp::U64Gt => match spec_u64_pair(args) {
            Some((a, b)) => Some(Value::Bool(a > b)),
            None => None,
        },
        BuiltinOp::U64Geq => match spec_u64_pair(args) {
            Some((a, b)) => Some(Value::Bool(a >= b)),
            None => None,
        },
        BuiltinOp::U64Lt => match spec_u64_pair(args) {
            Some((a, b)) => Some(Value::Bool(a < b)),
            None => None,
        },
        BuiltinOp::U64Leq => match spec_u64_pair(args) {
            Some((a, b)) => Some(Value::Bool(a <= b)),
            None => None,
        },
        BuiltinOp::U64And => match spec_u64_pair(args) {
            Some((a, b)) => Some(Value::U64(a & b)),
            None => None,
        },
        BuiltinOp::U64Or => match spec_u64_pair(args) {
            Some((a, b)) => Some(Value::U64(a | b)),
            None => None,
        },
        BuiltinOp::U64Xor => match spec_u64_pair(args) {
            Some((a, b)) => Some(Value::U64(a ^ b)),
            None => None,
        },
        BuiltinOp::U64Not => if args.len() == 1 {
            match args[0] {
                Value::U64(a) => Some(Value::U64(!a)),
                _ => None,
            }
        } else {
            None
        },
    }
}

/// Two signed 32-bit operands, or `None` when the arguments do not have
/// exactly that shape.
fn i32_pair(args: &Vec<Value>) -> (r: Option<(i32, i32)>)
    ensures
        r == spec_i32_pair(args@),
{
    if args.len() != 2 {
        return None;
    }
    match (&args[0], &args[1]) {
        (Value::I32(a), Value::I32(b)) => Some((*a, *b)),
        _ => None,
    }
}

/// Two signed 64-bit operands, or `None`.
fn i64_pair(args: &Vec<Value>) -> (r: Option<(i64, i64)>)
    ensures
        r == spec_i64_pair(args@),
{
    if args.len() != 2 {
        return None;
    }
    match (&args[0], &args[1]) {
        (Value::I64(a), Value::I64(b)) => Some((*a, *b)),
        _ => None,
    }
}

/// Two unsigned 32-bit operands, or `None`.
fn u32_pair(args: &Vec<Value>) -> (r: Option<(u32, u32)>)
    ensures
        r == spec_u32_pair(args@),
{
    if args.len() != 2 {
        return None;
    }
    match (&args[0], &args[1]) {
        (Value::U32(a), Value::U32(b)) => Some((*a, *b)),
        _ => None,
    }
}

/// Two unsigned 64-bit operands, or `None`.
fn u64_pair(args: &Vec<Value>) -> (r: Option<(u64, u64)>)
    ensures
        r == spec_u64_pair(args@),
{
    if args.len() != 2 {
        return None;
    }
    match (&args[0], &args[1]) {
        (Value::U64(a), Value::U64(b)) => Some((*a, *b)),
        _ => None,
    }
}

/// Applies a primitive operation to its arguments. Returns `None` exactly
/// where the operation has no defined result: on an arity or operand type
/// mismatch, on overflow, and on division by zero.
pub fn builtin_call(op: &BuiltinOp, args: &Vec<Value>) -> (r: Option<Value>)
    ensures
        r == spec_builtin_call(*op, args@),
{
    match op {
        BuiltinOp::I32Add => match i32_pair(args) {
            Some((a, b)) => match a.checked_add(b) {
                Some(v) => Some(Value::I32(v)),
                None => None,
            },
            None => None,
        },
        BuiltinOp::I32Sub => match i32_pair(args) {
            Some((a, b)) => match a.checked_sub(b) {
                Some(v) => Some(Value::I32(v)),
                None => None,
            },
            None => None,
        },
        BuiltinOp::I32Mul => match i32_pair(args) {
            Some((a, b)) => match a.checked_mul(b) {
                Some(v) => Some(Value::I32(v)),
                None => None,
            },
            None => None,
        },
        BuiltinOp::I32Div => match i32_pair(args) {
            Some((a, b)) => match a.checked_div(b) {
                Some(v) => Some(Value::I32(v)),
                None => None,
            },
            None => None,
        },
        BuiltinOp::I32Eq => match i32_pair(args) {
            Some((a, b)) => Some(Value::Bool(a == b)),
            None => None,
        },
        BuiltinOp::I32Gt => match i32_pair(args) {
            Some((a, b)) => Some(Value::Bool(a > b)),
            None => None,
        },
        BuiltinOp::I32Geq => match i32_pair(args) {
            Some((a, b)) => Some(Value::Bool(a >= b)),
            None => None,
        },
        BuiltinOp::I32Lt => match i32_pair(args) {
            Some((a, b)) => Some(Value::Bool(a < b)),
            None => None,
        },
        BuiltinOp::I32Leq => match i32_pair(args) {
            Some((a, b)) => Some(Value::Bool(a <= b)),
            None => None,
        },
        BuiltinOp::I32And => match i32_pair(args) {
            Some((a, b)) => Some(Value::I32(a & b)),
            None => None,
        },
        BuiltinOp::I32Or => match i32_pair(args) {
            Some((a, b)) => Some(Value::I32(a | b)),
            None => None,
        },
        BuiltinOp::I32Xor => match i32_pair(args) {
            Some((a, b)) => Some(Value::I32(a ^ b)),
            None => None,
        },
        BuiltinOp::I32Not => {
            if args.len() != 1 {
                return None;
            }
            match &args[0] {
                Value::I32(a) => Some(Value::I32(!*a)),
                _ => None,
            }
        },
        BuiltinOp::I64Add => match i64_pair(args) {
            Some((a, b)) => match a.checked_add(b) {
                Some(v) => Some(Value::I64(v)),
                None => None,
            },
            None => None,
        },
        BuiltinOp::I64Sub => match i64_pair(args) {
            Some((a, b)) => match a.checked_sub(b) {
                Some(v) => Some(Value::I64(v)),
                None => None,
            },
            None => None,
        },
        BuiltinOp::I64Mul => match i64_pair(args) {
            Some((a, b)) => match a.checked_mul(b) {
                Some(v) => Some(Value::I64(v)),
                None => None,
            },
            None => None,
        },
        BuiltinOp::I64Div => match i64_pair(args) {
            Some((a, b)) => match a.checked_div(b) {
                Some(v) => Some(Value::I64(v)),
                None => None,
            },
            None => None,
        },
        BuiltinOp::I64Eq => match i64_pair(args) {
            Some((a, b)) => Some(Value::Bool(a == b)),
            None => None,
        },
        BuiltinOp::I64Gt => match i64_pair(args) {
            Some((a, b)) => Some(Value::Bool(a > b)),
            None => None,
        },
        BuiltinOp::I64Geq => match i64_pair(args) {
            Some((a, b)) => Some(Value::Bool(a >= b)),
            None => None,
        },
        BuiltinOp::I64Lt => match i64_pair(args) {
            Some((a, b)) => Some(Value::Bool(a < b)),
            None => None,
        },
        BuiltinOp::I64Leq => match i64_pair(args) {
            Some((a, b)) => Some(Value::Bool(a <= b)),
            None => None,
        },
        BuiltinOp::I64And => match i64_pair(args) {
            Some((a, b)) => Some(Value::I64(a & b)),
            None => None,
        },
        BuiltinOp::I64Or => match i64_pair(args) {
            Some((a, b)) => Some(Value::I64(a | b)),
            None => None,
        },
        BuiltinOp::I64Xor => match i64_pair(args) {
            Some((a, b)) => Some(Value::I64(a ^ b)),
            None => None,
        },
        BuiltinOp::I64Not => {
            if args.len() != 1 {
                return None;
            }
            match &args[0] {
                Value::I64(a) => Some(Value::I64(!*a)),
                _ => None,
            }
        },
        BuiltinOp::U32Add => match u32_pair(args) {
            Some((a, b)) => match a.checked_add(b) {
                Some(v) => Some(Value::U32(v)),
                None => None,
            },
            None => None,
        },
        BuiltinOp::U32Sub => match u32_pair(args) {
            Some((a, b)) => match a.checked_sub(b) {
                Some(v) => Some(Value::U32(v)),
                None => None,
            },
            None => None,
        },
        BuiltinOp::U32Mul => match u32_pair(args) {
            Some((a, b)) => match a.checked_mul(b) {
                Some(v) => Some(Value::U32(v)),
                None => None,
            },
            None => None,
        },
        BuiltinOp::U32Div => match u32_pair(args) {
            Some((a, b)) => match a.checked_div(b) {
                Some(v) => Some(Value::U32(v)),
                None => None,
            },
            None => None,
        },
        BuiltinOp::U32Eq => match u32_pair(args) {
            Some((a, b)) => Some(Value::Bool(a == b)),
            None => None,
        },
        BuiltinOp::U32Gt => match u32_pair(args) {
            Some((a, b)) => Some(Value::Bool(a > b)),
            None => None,
        },
        BuiltinOp::U32Geq => match u32_pair(args) {
            Some((a, b)) => Some(Value::Bool(a >= b)),
            None => None,
        },
        BuiltinOp::U32Lt => match u32_pair(args) {
            Some((a, b)) => Some(Value::Bool(a < b)),
            None => None,
        },
        BuiltinOp::U32Leq => match u32_pair(args) {
            Some((a, b)) => Some(Value::Bool(a <= b)),
            None => None,
        },
        BuiltinOp::U32And => match u32_pair(args) {
            Some((a, b)) => Some(Value::U32(a & b)),
            None => None,
        },
        BuiltinOp::U32Or => match u32_pair(args) {
            Some((a, b)) => Some(Value::U32(a | b)),
            None => None,
        },
        BuiltinOp::U32Xor => match u32_pair(args) {
            Some((a, b)) => Some(Value::U32(a ^ b)),
            None => None,
        },
        BuiltinOp::U32Not => {
            if args.len() != 1 {
                return None;
            }
            match &args[0] {
                Value::U32(a) => Some(Value::U32(!*a)),
                _ => None,
            }
        },
        BuiltinOp::U64Add => match u64_pair(args) {
            Some((a, b)) => match a.checked_add(b) {
                Some(v) => Some(Value::U64(v)),
                None => None,
            },
            None => None,
        },
        BuiltinOp::U64Sub => match u64_pair(args) {
            Some((a, b)) => match a.checked_sub(b) {
                Some(v) => Some(Value::U64(v)),
                None => None,
            },
            None => None,
        },
        BuiltinOp::U64Mul => match u64_pair(args) {
            Some((a, b)) => match a.checked_mul(b) {
                Some(v) => Some(Value::U64(v)),
                None => None,
            },
            None => None,
        },
        BuiltinOp::U64Div => match u64_pair(args) {
            Some((a, b)) => match a.checked_div(b) {
                Some(v) => Some(Value::U64(v)),
                None => None,
            },
            None => None,
        },
        BuiltinOp::U64Eq => match u64_pair(args) {
            Some((a, b)) => Some(Value::Bool(a == b)),
            None => None,
        },
        BuiltinOp::U64Gt => match u64_pair(args) {
            Some((a, b)) => Some(Value::Bool(a > b)),
            None => None,
        },
        BuiltinOp::U64Geq => match u64_pair(args) {
            Some((a, b)) => Some(Value::Bool(a >= b)),
            None => None,
        },
        BuiltinOp::U64Lt => match u64_pair(args) {
            Some((a, b)) => Some(Value::Bool(a < b)),
            None => None,
        },
        BuiltinOp::U64Leq => match u64_pair(args) {
            Some((a, b)) => Some(Value::Bool(a <= b)),
            None => None,
        },
        BuiltinOp::U64And => match u64_pair(args) {
            Some((a, b)) => Some(Value::U64(a & b)),
            None => None,
        },
        BuiltinOp::U64Or => match u64_pair(args) {
            Some((a, b)) => Some(Value::U64(a | b)),
            None => None,
        },
        BuiltinOp::U64Xor => match u64_pair(args) {
            Some((a, b)) => Some(Value::U64(a ^ b)),
            None => None,
        },
        BuiltinOp::U64Not => {
            if args.len() != 1 {
                return None;
            }
            match &args[0] {
                Value::U64(a) => Some(Value::U64(!*a)),
                _ => None,
            }
        },
    }
}

} // verus!
