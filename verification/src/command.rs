//! An expanded, ready-to-run shell command.
//!
//! A command carries an optional display name, the shell text to execute,
//! and the parameter bindings of this expansion. Every `{name}` token in the
//! shell text or the display name is substituted by the bound value's text,
//! one binding after the other, in declaration order.

use crate::parameter::{value_text, value_wf, ParameterValue};
use crate::text::{replace_spec, replace_str};
use vstd::prelude::*;

verus! {

/// The substitution token of a parameter name.
pub open spec fn token_of(name: Seq<char>) -> Seq<char> {
    seq!['{'] + name + seq!['}']
}

/// A binding, reduced to what substitution reads: the parameter's name and
/// its value's text.
pub open spec fn binding_pairs(ps: Seq<(String, ParameterValue)>) -> Seq<(Seq<char>, Seq<char>)> {
    ps.map_values(|p: (String, ParameterValue)| (p.0@, value_text(p.1)))
}

/// `text` with each binding's token replaced by its value's text, binding
/// after binding.
pub open spec fn substitute_all(text: Seq<char>, bs: Seq<(Seq<char>, Seq<char>)>) -> Seq<char>
    decreases bs.len(),
{
    if bs.len() == 0 {
        text
    } else {
        substitute_all(replace_spec(text, token_of(bs[0].0), bs[0].1), bs.skip(1))
    }
}

/// An expanded, ready-to-run shell command.
#[derive(Debug)]
pub struct Command {
    /// A display name; the substituted shell text stands in when it is absent.
    pub name: Option<String>,
    /// The shell text, before substitution.
    pub cmd: String,
    /// The parameter bindings of this expansion, in declaration order.
    pub parameters: Vec<(String, ParameterValue)>,
}

impl Command {
    /// Every bound number is well formed.
    pub open spec fn wf(self) -> bool {
        forall|i: int| 0 <= i < self.parameters@.len() ==> value_wf(
            (#[trigger] self.parameters@[i]).1,
        )
    }

    /// A command without parameters.
    pub fn new(name: Option<String>, command: String) -> (c: Command)
        ensures
            c.wf(),
            c.name == name,
            c.cmd == command,
            c.parameters@.len() == 0,
    {
        Command { name, cmd: command, parameters: Vec::new() }
    }

    /// A command with parameter bindings.
    pub fn new_parametrized(
        name: Option<String>,
        command: String,
        parameters: Vec<(String, ParameterValue)>,
    ) -> (c: Command)
        requires
            forall|i: int| 0 <= i < parameters@.len() ==> value_wf((#[trigger] parameters@[i]).1),
        ensures
            c.wf(),
            c.name == name,
            c.cmd == command,
            c.parameters == parameters,
    {
        Command { name, cmd: command, parameters }
    }

    /// The parameter bindings of this expansion.
    pub fn get_parameters(&self) -> (ps: &Vec<(String, ParameterValue)>)
        ensures
            ps == &self.parameters,
    {
        &self.parameters
    }

    /// The shell text with every parameter token substituted.
    pub fn get_shell_command(&self) -> (r: String)
        requires
            self.wf(),
        ensures
            r@ == substitute_all(self.cmd@, binding_pairs(self.parameters@)),
    {
        substitute_into(self.cmd.as_str(), &self.parameters)
    }

    /// The display name: the given name template, or the shell text, either
    /// way with every parameter token substituted.
    pub fn get_name(&self) -> (r: String)
        requires
            self.wf(),
        ensures
            r@ == match self.name {
                Some(n) => substitute_all(n@, binding_pairs(self.parameters@)),
                None => substitute_all(self.cmd@, binding_pairs(self.parameters@)),
            },
    {
        match &self.name {
            Some(n) => substitute_into(n.as_str(), &self.parameters),
            None => self.get_shell_command(),
        }
    }
}

/// `text` with each binding's token replaced by its value's text.
pub fn substitute_into(text: &str, parameters: &Vec<(String, ParameterValue)>) -> (r: String)
    requires
        forall|i: int| 0 <= i < parameters@.len() ==> value_wf((#[trigger] parameters@[i]).1),
    ensures
        r@ == substitute_all(text@, binding_pairs(parameters@)),
{
    let ghost ps = parameters@;
    let mut current = String::from_str(text);
    let mut i: usize = 0;
    proof {
        assert(binding_pairs(ps).skip(0) =~= binding_pairs(ps));
    }
    while i < parameters.len()
        invariant
            0 <= i <= ps.len(),
            parameters@ == ps,
            forall|k: int| 0 <= k < ps.len() ==> value_wf((#[trigger] ps[k]).1),
            substitute_all(text@, binding_pairs(ps)) == substitute_all(
                current@,
                binding_pairs(ps).skip(i as int),
            ),
        decreases ps.len() - i,
    {
        proof {
            reveal_strlit("{");
            reveal_strlit("}");
        }
        let pair = &parameters[i];
        let token = String::from_str("{").concat(pair.0.as_str()).concat("}");
        let value = pair.1.to_text();
        proof {
            assert(token@ =~= token_of(ps[i as int].0@));
            assert(binding_pairs(ps).skip(i as int)[0] == (ps[i as int].0@, value_text(
                ps[i as int].1,
            )));
            assert(binding_pairs(ps).skip(i as int).skip(1) =~= binding_pairs(ps).skip(i + 1));
        }
        current = replace_str(current.as_str(), token.as_str(), value.as_str());
        i = i + 1;
    }
    proof {
        assert(binding_pairs(ps).skip(ps.len() as int) =~= Seq::<(Seq<char>, Seq<char>)>::empty());
    }
    current
}

} // verus!
