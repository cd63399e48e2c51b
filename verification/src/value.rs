//! Runtime representations of values within the language.

use std::collections::HashMap;

use vstd::prelude::*;

use crate::datum::Datum;

verus! {

pub type Env = HashMap<String, Value>;

/// A runtime value.
#[derive(Debug)]
pub enum Value {
    Char(char),
    Bool(bool),
    Str(String),
    Vector(Vec<Value>),
    Fixnum(i32),
    Quote(Datum),
    Env(Env),
    Closure(Box<Value>, Env),
}

} // verus!
