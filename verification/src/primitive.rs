//! The values a label can hold.

use vstd::prelude::*;

verus! {

/// A scalar value: nothing, a truth value, a number or a text.
///
/// A number is held as the text that YAML writes for it (`12`, `-3`, `0.5`,
/// `.inf`), so two numbers are equal exactly if they are written alike.
#[derive(Debug, Clone, PartialEq, Eq)]
pub enum Primitive {
    /// No value.
    Null,
    /// A truth value.
    Bool(bool),
    /// A number, as YAML writes it.
    Number(String),
    /// A text.
    String(String),
}

/// What a [`Primitive`] stands for.
pub enum Scalar {
    /// No value.
    Null,
    /// A truth value.
    Bool(bool),
    /// A number, as YAML writes it.
    Number(Seq<char>),
    /// A text.
    Text(Seq<char>),
}

impl View for Primitive {
    type V = Scalar;

    open spec fn view(&self) -> Scalar {
        match self {
            Primitive::Null => Scalar::Null,
            Primitive::Bool(b) => Scalar::Bool(*b),
            Primitive::Number(n) => Scalar::Number(n@),
            Primitive::String(s) => Scalar::Text(s@),
        }
    }
}

/// How a scalar is shown: nothing for `Null`, `true` or `false`, the number
/// as written, the text itself.
pub open spec fn shown(v: Scalar) -> Seq<char> {
    match v {
        Scalar::Null => Seq::empty(),
        Scalar::Bool(b) => if b {
            seq!['t', 'r', 'u', 'e']
        } else {
            seq!['f', 'a', 'l', 's', 'e']
        },
        Scalar::Number(n) => n,
        Scalar::Text(s) => s,
    }
}

/// The scalar that `serde_yaml::from_str` reads from a YAML document, or
/// `None` where the document does not parse or holds a sequence, a mapping or
/// a tagged value.
pub uninterp spec fn yaml_scalar(text: Seq<char>) -> Option<Scalar>;

/// `serde_yaml::from_str`, reading a `serde_yaml::Value`, taken on trust:
/// the result is the scalar that [`yaml_scalar`] names for `text`, a number
/// being handed over as `Number`'s `Display` writes it; it is `None` for a
/// text that does not parse and for a sequence, a mapping or a tagged value.
#[verifier::external_body]
fn read_yaml_scalar(text: &str) -> (r: Option<Primitive>)
    ensures
        r is Some <==> yaml_scalar(text@) is Some,
        r matches Some(p) ==> yaml_scalar(text@) == Some(p@),
{
    match serde_yaml::from_str::<serde_yaml::Value>(text) {
        Ok(serde_yaml::Value::Null) => Some(Primitive::Null),
        Ok(serde_yaml::Value::Bool(b)) => Some(Primitive::Bool(b)),
        Ok(serde_yaml::Value::Number(n)) => Some(Primitive::Number(n.to_string())),
        Ok(serde_yaml::Value::String(s)) => Some(Primitive::String(s)),
        _ => None,
    }
}

/// The value that the text `raw` stands for, given what YAML made of it:
/// the scalar it read, or else the text as it is.
pub open spec fn value_of(parsed: Option<Scalar>, raw: Seq<char>) -> Scalar {
    match parsed {
        Some(v) => v,
        None => Scalar::Text(raw),
    }
}

impl Primitive {
    /// Reads `text` as a YAML scalar.
    pub fn from_str(text: &str) -> (r: Option<Primitive>)
        ensures
            r is Some <==> yaml_scalar(text@) is Some,
            r matches Some(p) ==> yaml_scalar(text@) == Some(p@),
    {
        read_yaml_scalar(text)
    }

    /// The value for `raw`, given the scalar that was read from it, if any.
    pub fn or_text(parsed: Option<Primitive>, raw: &str) -> (r: Primitive)
        ensures
            r@ == value_of(
                match parsed {
                    Some(p) => Some(p@),
                    None => None,
                },
                raw@,
            ),
    {
        match parsed {
            Some(p) => p,
            None => Primitive::String(raw.to_owned()),
        }
    }

    /// The value that `raw` stands for: what YAML reads from it where that is
    /// a scalar, the text itself otherwise.
    pub fn read(raw: &str) -> (r: Primitive)
        ensures
            r@ == value_of(yaml_scalar(raw@), raw@),
    {
        let parsed = Primitive::from_str(raw);
        Primitive::or_text(parsed, raw)
    }

    /// The value as it is shown.
    pub fn to_text(&self) -> (r: String)
        ensures
            r@ == shown(self@),
    {
        match self {
            Primitive::Null => String::new(),
            Primitive::Bool(b) => {
                proof {
                    reveal_strlit("true");
                    reveal_strlit("false");
                    assert("true"@ == seq!['t', 'r', 'u', 'e']);
                    assert("false"@ == seq!['f', 'a', 'l', 's', 'e']);
                }
                if *b {
                    "true".to_owned()
                } else {
                    "false".to_owned()
                }
            },
            Primitive::Number(n) => n.clone(),
            Primitive::String(s) => s.clone(),
        }
    }

    /// A copy of the value.
    pub fn duplicate(&self) -> (r: Primitive)
        ensures
            r@ == self@,
    {
        match self {
            Primitive::Null => Primitive::Null,
            Primitive::Bool(b) => Primitive::Bool(*b),
            Primitive::Number(n) => Primitive::Number(n.clone()),
            Primitive::String(s) => Primitive::String(s.clone()),
        }
    }

    /// Whether the two values are of one kind and equal.
    pub fn same(&self, other: &Primitive) -> (r: bool)
        ensures
            r == (self@ == other@),
    {
        match (self, other) {
            (Primitive::Null, Primitive::Null) => true,
            (Primitive::Bool(a), Primitive::Bool(b)) => *a == *b,
            (Primitive::Number(a), Primitive::Number(b)) => *a == *b,
            (Primitive::String(a), Primitive::String(b)) => *a == *b,
            _ => false,
        }
    }
}

} // verus!
