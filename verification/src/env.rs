//! The environment variables that a node was started with.

use vstd::prelude::*;
use vstd::string::*;

use crate::text;
use crate::text::{same, trim};

verus! {

/// What a variable is set to.
pub enum EnvValue {
    /// Text.
    Text(String),
    /// Bytes that are not text in UTF-8.
    Bytes(Vec<u8>),
}

/// One variable.
pub struct EnvVar {
    pub name: String,
    pub value: EnvValue,
}

/// The variables that are set.
pub struct Env {
    pub vars: Vec<EnvVar>,
}

/// What a name is set to: by the first variable of that name, if there is one.
pub open spec fn lookup(vars: Seq<EnvVar>, name: Seq<char>) -> Option<EnvValue>
    decreases vars.len(),
{
    if vars.len() == 0 {
        None
    } else if vars[0].name@ == name {
        Some(vars[0].value)
    } else {
        lookup(vars.drop_first(), name)
    }
}

/// A value that holds more than white space, or nothing.
pub open spec fn filled(value: Option<Seq<char>>) -> Option<Seq<char>> {
    match value {
        Some(v) => if text::trimmed(v).len() == 0 {
            None
        } else {
            Some(v)
        },
        None => None,
    }
}

impl Env {
    /// The text that a variable is set to.
    pub open spec fn text(&self, name: Seq<char>) -> Option<Seq<char>> {
        match lookup(self.vars@, name) {
            Some(EnvValue::Text(v)) => Some(v@),
            _ => None,
        }
    }

    /// The bytes that a variable is set to.
    pub open spec fn bytes(&self, name: Seq<char>) -> Option<Seq<u8>> {
        match lookup(self.vars@, name) {
            Some(EnvValue::Text(v)) => Some(vstd::utf8::encode_utf8(v@)),
            Some(EnvValue::Bytes(b)) => Some(b@),
            None => None,
        }
    }

    /// The text that a variable is set to, where it holds more than white space.
    pub open spec fn filled_text(&self, name: Seq<char>) -> Option<Seq<char>> {
        filled(self.text(name))
    }

    fn find(&self, name: &str) -> (value: Option<&EnvValue>)
        ensures
            value is Some == lookup(self.vars@, name@) is Some,
            value matches Some(v) ==> Some(*v) == lookup(self.vars@, name@),
    {
        let mut i: usize = 0;
        assert(self.vars@.skip(0) == self.vars@);
        while i < self.vars.len()
            invariant
                i <= self.vars@.len(),
                lookup(self.vars@, name@) == lookup(self.vars@.skip(i as int), name@),
            decreases self.vars@.len() - i,
        {
            assert(self.vars@.skip(i as int).drop_first() == self.vars@.skip(i + 1));
            if same(self.vars[i].name.as_str(), name) {
                return Some(&self.vars[i].value);
            }
            i += 1;
        }
        None
    }

    /// The text that a variable is set to. Nothing where it is not set, or not to text.
    pub fn var(&self, name: &str) -> (value: Option<String>)
        ensures
            value.deep_view() == self.text(name@),
    {
        match self.find(name) {
            Some(EnvValue::Text(v)) => Some(v.clone()),
            _ => None,
        }
    }

    /// The bytes that a variable is set to.
    pub fn var_os(&self, name: &str) -> (value: Option<Vec<u8>>)
        ensures
            value.deep_view() == self.bytes(name@),
    {
        match self.find(name) {
            Some(EnvValue::Text(v)) => {
                let bytes = v.as_str().as_bytes_vec();
                assert(bytes.deep_view() == bytes@);
                Some(bytes)
            },
            Some(EnvValue::Bytes(b)) => {
                let bytes = b.clone();
                assert(bytes.deep_view() == b@);
                Some(bytes)
            },
            None => None,
        }
    }

    /// The text that a variable is set to, where it holds more than white space.
    pub fn env_str(&self, name: &str) -> (value: Option<String>)
        ensures
            value.deep_view() == self.filled_text(name@),
    {
        match self.var(name) {
            Some(v) => if trim(v.as_str()).as_str().is_empty() {
                None
            } else {
                Some(v)
            },
            None => None,
        }
    }

    /// The text that a variable is set to, or a fallback where it holds nothing but white space.
    pub fn env_or(&self, name: &str, fallback: String) -> (value: String)
        ensures
            value@ == match self.filled_text(name@) {
                Some(v) => v,
                None => fallback@,
            },
    {
        match self.env_str(name) {
            Some(v) => v,
            None => fallback,
        }
    }
}

/// A variable is the first of its name, and one that nothing is named after is not set. One that
/// holds white space only counts as not set where a value is asked for; any other value is kept as
/// it is.
pub proof fn a_variable_is_the_first_of_its_name(env: Env, name: Seq<char>, i: int)
    ensures
        0 <= i < env.vars@.len() && env.vars@[i].name@ == name && (forall|k: int|
            0 <= k < i ==> (#[trigger] env.vars@[k]).name@ != name) ==> {
            &&& env.vars@[i].value matches EnvValue::Text(v) ==> env.text(name) == Some(v@)
                && env.bytes(name) == Some(vstd::utf8::encode_utf8(v@))
            &&& env.vars@[i].value matches EnvValue::Bytes(b) ==> env.text(name) is None
                && env.bytes(name) == Some(b@)
        },
        (forall|k: int| 0 <= k < env.vars@.len() ==> (#[trigger] env.vars@[k]).name@ != name)
            ==> env.text(name) is None && env.bytes(name) is None,
        env.filled_text(name) is Some <==> env.text(name) is Some && exists|k: int|
            0 <= k < env.text(name)->0.len() && !text::is_white(#[trigger] env.text(name)->0[k]),
        env.filled_text(name) is Some ==> env.filled_text(name) == env.text(name),
{
    lemma_first_of_its_name(env.vars@, name, i);
    if let Some(v) = env.text(name) {
        text::trimming_takes_white_ends_only(v);
    }
}

proof fn lemma_first_of_its_name(vars: Seq<EnvVar>, name: Seq<char>, i: int)
    ensures
        0 <= i < vars.len() && vars[i].name@ == name && (forall|k: int|
            0 <= k < i ==> (#[trigger] vars[k]).name@ != name) ==> lookup(vars, name) == Some(
            vars[i].value,
        ),
        (forall|k: int| 0 <= k < vars.len() ==> (#[trigger] vars[k]).name@ != name) ==> lookup(
            vars,
            name,
        ) is None,
    decreases vars.len(),
{
    if vars.len() > 0 && vars[0].name@ != name {
        let rest = vars.drop_first();
        lemma_first_of_its_name(rest, name, i - 1);
        assert forall|k: int| 0 <= k < rest.len() implies #[trigger] rest[k] == vars[k + 1] by {}
        if 0 < i < vars.len() {
            assert(rest[i - 1] == vars[i]);
        }
    } else if vars.len() > 0 {
        assert(vars[0].name@ == name);
    }
}

} // verus!
