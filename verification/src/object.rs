//! Runtime values of the virtual machine.

use vstd::prelude::*;

verus! {

/// A runtime value: a signed 64-bit integer, a boolean, the null value,
/// or the `NoOp` sentinel that pre-fills the operand stack and the
/// globals frame before anything is stored in them.
#[derive(Clone, Copy, Debug, PartialEq, Eq, Structural)]
pub enum ObjectType {
    Integer(i64),
    Boolean(bool),
    Null,
    NoOp,
}

impl ObjectType {
    /// The printed form of a value: the integer in decimal, `true` or
    /// `false` for booleans, and the empty text for `Null` and `NoOp`.
    pub open spec fn spec_render(self) -> Seq<char> {
        match self {
            ObjectType::Integer(v) => crate::decimal::dec_digits_i64(v as int),
            ObjectType::Boolean(b) => if b {
                "true"@
            } else {
                "false"@
            },
            ObjectType::Null => Seq::<char>::empty(),
            ObjectType::NoOp => Seq::<char>::empty(),
        }
    }

    /// Renders the value in its printed form.
    pub fn render(&self) -> (r: String)
        ensures
            r@ == self.spec_render(),
    {
        match self {
            ObjectType::Integer(v) => crate::decimal::dec_string_i64(*v),
            ObjectType::Boolean(b) => {
                if *b {
                    String::from_str("true")
                } else {
                    String::from_str("false")
                }
            },
            ObjectType::Null => String::new(),
            ObjectType::NoOp => String::new(),
        }
    }
}

impl Default for ObjectType {
    fn default() -> (r: Self)
        ensures
            r == ObjectType::NoOp,
    {
        ObjectType::NoOp
    }
}

} // verus!
