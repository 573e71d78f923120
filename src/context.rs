use vstd::prelude::*;
use vstd::string::StringExecFns;

verus! {

/// The data a template is rendered against, as a closed set of kinds.
///
/// A number is kept as its canonical decimal text, which is both what it
/// renders as and what its floating-point value is read from.
#[derive(Debug)]
pub enum Value {
    Null,
    Bool(bool),
    Number(String),
    Str(String),
    Array(Vec<Value>),
    Object(Vec<(String, Value)>),
}

/// The first entry of `entries`, from `i` on, whose key is `name`.
pub open spec fn lookup_from(entries: Seq<(String, Value)>, name: Seq<char>, i: int) -> Option<
    Value,
>
    decreases entries.len() - i,
{
    if i < 0 || i >= entries.len() {
        None
    } else if entries[i].0@ == name {
        Some(entries[i].1)
    } else {
        lookup_from(entries, name, i + 1)
    }
}

/// What `name` is bound to at the top level of `data`.
pub open spec fn lookup(data: Value, name: Seq<char>) -> Option<Value> {
    match data {
        Value::Object(entries) => lookup_from(entries@, name, 0),
        _ => None,
    }
}

/// The text a value renders as; `None` for a sequence or a mapping.
pub open spec fn rendered(v: Value) -> Option<Seq<char>> {
    match v {
        Value::Null => Some(Seq::empty()),
        Value::Bool(b) => Some(
            if b {
                seq!['t', 'r', 'u', 'e']
            } else {
                seq!['f', 'a', 'l', 's', 'e']
            },
        ),
        Value::Number(s) => Some(s@),
        Value::Str(s) => Some(s@),
        Value::Array(_) => None,
        Value::Object(_) => None,
    }
}

impl Value {
    /// The value as text: strings verbatim, numbers and booleans in their
    /// canonical form, null as the empty string; `None` for a sequence or a
    /// mapping.
    pub fn render(&self) -> (r: Option<String>)
        ensures
            r is Some <==> rendered(*self) is Some,
            r is Some ==> r->0@ == rendered(*self)->0,
    {
        match self {
            Value::Null => Some(String::new()),
            Value::Bool(b) => {
                let s = if *b {
                    String::from_str("true")
                } else {
                    String::from_str("false")
                };
                proof {
                    reveal_strlit("true");
                    reveal_strlit("false");
                }
                Some(s)
            },
            Value::Number(s) => Some(s.clone()),
            Value::Str(s) => Some(s.clone()),
            Value::Array(_) => None,
            Value::Object(_) => None,
        }
    }

    /// The decimal text of a number; `None` for any other kind.
    pub fn to_number(&self) -> (r: Option<String>)
        ensures
            r is Some <==> self is Number,
            r is Some ==> r->0@ == self->Number_0@,
    {
        match self {
            Value::Number(s) => Some(s.clone()),
            _ => None,
        }
    }
}

/// The bound data of one render.
#[derive(Debug)]
pub struct Context {
    pub data: Value,
}

impl Context {
    pub fn new(data: Value) -> (r: Context)
        ensures
            r.data == data,
    {
        Context { data }
    }

    /// The value bound to `name` in the top-level mapping; `None` if it is
    /// absent or the data is not a mapping.
    pub fn get(&self, name: &str) -> (r: Option<&Value>)
        ensures
            r is Some <==> lookup(self.data, name@) is Some,
            r is Some ==> *r->0 == lookup(self.data, name@)->0,
    {
        match &self.data {
            Value::Object(entries) => {
                let key = String::from_str(name);
                let mut i: usize = 0;
                while i < entries.len()
                    invariant
                        i <= entries.len(),
                        key@ == name@,
                        self.data == Value::Object(*entries),
                        lookup_from(entries@, name@, 0) == lookup_from(entries@, name@, i as int),
                    decreases entries.len() - i,
                {
                    if entries[i].0 == key {
                        return Some(&entries[i].1);
                    }
                    i = i + 1;
                }
                None
            },
            _ => None,
        }
    }
}

} // verus!
