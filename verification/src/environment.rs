//! Settings read from a snapshot of named text variables.

use crate::text::{
    parse_bool, parse_i32, parse_u64, parse_usize, parsed_bool, parsed_i32, parsed_unsigned,
    same_text,
};
use vstd::prelude::*;

verus! {

/// A snapshot of named variables, such as a process environment.
#[derive(Debug)]
pub struct Environment {
    pub vars: Vec<(String, String)>,
}

impl View for Environment {
    type V = Seq<(Seq<char>, Seq<char>)>;

    open spec fn view(&self) -> Seq<(Seq<char>, Seq<char>)> {
        Seq::new(self.vars@.len(), |i: int| (self.vars@[i].0@, self.vars@[i].1@))
    }
}

/// The value of the first variable with this name.
pub open spec fn lookup(vars: Seq<(Seq<char>, Seq<char>)>, name: Seq<char>) -> Option<Seq<char>>
    decreases vars.len(),
{
    if vars.len() == 0 {
        None
    } else if vars[0].0 == name {
        Some(vars[0].1)
    } else {
        lookup(vars.skip(1), name)
    }
}

/// A truth value, or `default` when the variable is absent or not a truth value.
pub open spec fn bool_setting(
    vars: Seq<(Seq<char>, Seq<char>)>,
    name: Seq<char>,
    default: bool,
) -> bool {
    match lookup(vars, name) {
        Some(value) => match parsed_bool(value) {
            Some(b) => b,
            None => default,
        },
        None => default,
    }
}

/// A number up to `max`, or `default` when the variable is absent or not such a number.
pub open spec fn number_setting(
    vars: Seq<(Seq<char>, Seq<char>)>,
    name: Seq<char>,
    default: nat,
    max: nat,
) -> nat {
    match lookup(vars, name) {
        Some(value) => match parsed_unsigned(value, max) {
            Some(n) => n,
            None => default,
        },
        None => default,
    }
}

/// An optional 64-bit number.
pub open spec fn optional_number(
    vars: Seq<(Seq<char>, Seq<char>)>,
    name: Seq<char>,
) -> Option<nat> {
    match lookup(vars, name) {
        Some(value) => parsed_unsigned(value, u64::MAX as nat),
        None => None,
    }
}

/// A signed 32-bit number, or `default`.
pub open spec fn signed_setting(
    vars: Seq<(Seq<char>, Seq<char>)>,
    name: Seq<char>,
    default: int,
) -> int {
    match lookup(vars, name) {
        Some(value) => match parsed_i32(value) {
            Some(n) => n,
            None => default,
        },
        None => default,
    }
}

impl Environment {
    /// A snapshot without any variable.
    pub fn empty() -> (env: Environment)
        ensures
            env@ == Seq::<(Seq<char>, Seq<char>)>::empty(),
    {
        let env = Environment { vars: Vec::new() };
        assert(env@ =~= Seq::<(Seq<char>, Seq<char>)>::empty());
        env
    }

    pub fn var(&self, name: &str) -> (value: Option<String>)
        ensures
            match value {
                Some(v) => lookup(self@, name@) == Some(v@),
                None => lookup(self@, name@) is None,
            },
    {
        let mut i: usize = 0;
        assert(self@.skip(0) =~= self@);
        while i < self.vars.len()
            invariant
                i <= self.vars.len(),
                self@.len() == self.vars.len(),
                lookup(self@.skip(i as int), name@) == lookup(self@, name@),
            decreases self.vars.len() - i,
        {
            assert(self@.skip(i as int)[0] == self@[i as int]);
            if same_text(self.vars[i].0.as_str(), name) {
                return Some(self.vars[i].1.clone());
            }
            assert(self@.skip(i as int).skip(1) =~= self@.skip(i + 1));
            i += 1;
        }
        None
    }
}

pub fn env_bool(env: &Environment, name: &str, default: bool) -> (value: bool)
    ensures
        value == bool_setting(env@, name@, default),
{
    match env.var(name) {
        Some(text) => match parse_bool(text.as_str()) {
            Some(b) => b,
            None => default,
        },
        None => default,
    }
}

pub fn env_usize(env: &Environment, name: &str, default: usize) -> (value: usize)
    ensures
        value == number_setting(env@, name@, default as nat, usize::MAX as nat),
{
    match env.var(name) {
        Some(text) => match parse_usize(text.as_str()) {
            Some(n) => n,
            None => default,
        },
        None => default,
    }
}

pub fn env_u64(env: &Environment, name: &str, default: u64) -> (value: u64)
    ensures
        value == number_setting(env@, name@, default as nat, u64::MAX as nat),
{
    match env.var(name) {
        Some(text) => match parse_u64(text.as_str()) {
            Some(n) => n,
            None => default,
        },
        None => default,
    }
}

pub fn env_optional_u64(env: &Environment, name: &str) -> (value: Option<u64>)
    ensures
        match value {
            Some(n) => optional_number(env@, name@) == Some(n as nat),
            None => optional_number(env@, name@) is None,
        },
{
    match env.var(name) {
        Some(text) => parse_u64(text.as_str()),
        None => None,
    }
}

pub fn env_i32(env: &Environment, name: &str, default: i32) -> (value: i32)
    ensures
        value == signed_setting(env@, name@, default as int),
{
    match env.var(name) {
        Some(text) => match parse_i32(text.as_str()) {
            Some(n) => n,
            None => default,
        },
        None => default,
    }
}

} // verus!
