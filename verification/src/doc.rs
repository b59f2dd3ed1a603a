//! A parsed configuration or response document (JSON or TOML), as plain
//! values the library reads.
use vstd::prelude::*;

verus! {

/// A document value.
#[derive(Debug)]
pub enum Doc {
    Null,
    Bool(bool),
    /// A number, or another non-string scalar (such as a TOML date-time), by its text.
    Scalar(String),
    Str(String),
    Array(Vec<Doc>),
    /// Key/value entries in the document's order.
    Object(Vec<(String, Doc)>),
}

/// The value of the first entry named `key`.
pub open spec fn lookup(entries: Seq<(String, Doc)>, key: Seq<char>) -> Option<Doc>
    decreases entries.len(),
{
    if entries.len() == 0 {
        None
    } else if entries[0].0@ == key {
        Some(entries[0].1)
    } else {
        lookup(entries.drop_first(), key)
    }
}

/// Member `key` of an object; `None` for other values or a missing key.
pub open spec fn get_spec(d: Doc, key: Seq<char>) -> Option<Doc> {
    match d {
        Doc::Object(entries) => lookup(entries@, key),
        _ => None,
    }
}

/// Member `key` of an optional value.
pub open spec fn get_opt(d: Option<Doc>, key: Seq<char>) -> Option<Doc> {
    match d {
        Some(d) => get_spec(d, key),
        None => None,
    }
}

/// The text of a string value.
pub open spec fn str_spec(d: Option<Doc>) -> Option<Seq<char>> {
    match d {
        Some(Doc::Str(s)) => Some(s@),
        _ => None,
    }
}

pub open spec fn opt_ref(r: Option<&Doc>) -> Option<Doc> {
    match r {
        Some(d) => Some(*d),
        None => None,
    }
}

pub open spec fn opt_view(s: Option<String>) -> Option<Seq<char>> {
    match s {
        Some(s) => Some(s@),
        None => None,
    }
}

impl Doc {
    /// Member `key` of an object (`None` for other values).
    #[verifier::loop_isolation(false)]
    pub fn get(&self, key: &str) -> (r: Option<&Doc>)
        ensures
            opt_ref(r) == get_spec(*self, key@),
    {
        match self {
            Doc::Object(entries) => {
                let mut i: usize = 0;
                assert(entries@.skip(0) == entries@);
                while i < entries.len()
                    invariant
                        i <= entries.len(),
                        lookup(entries@, key@) == lookup(entries@.skip(i as int), key@),
                    decreases entries.len() - i,
                {
                    assert(entries@.skip(i as int)[0] == entries@[i as int]);
                    assert(entries@.skip(i as int).drop_first() == entries@.skip(i as int + 1));
                    if crate::text::str_eq(entries[i].0.as_str(), key) {
                        assert(entries@.skip(i as int).len() > 0);
                        assert(lookup(entries@.skip(i as int), key@) == Some(entries@[i as int].1));
                        return Some(&entries[i].1);
                    }
                    i += 1;
                }
                None
            },
            _ => None,
        }
    }

    /// The text of a string value.
    pub fn as_str(&self) -> (r: Option<&String>)
        ensures
            match r {
                Some(s) => str_spec(Some(*self)) == Some(s@),
                None => str_spec(Some(*self)) is None,
            },
    {
        match self {
            Doc::Str(s) => Some(s),
            _ => None,
        }
    }
}

/// Member `key` of an optional value.
pub fn get_in<'a>(d: Option<&'a Doc>, key: &str) -> (r: Option<&'a Doc>)
    ensures
        opt_ref(r) == get_opt(opt_ref(d), key@),
{
    match d {
        Some(d) => d.get(key),
        None => None,
    }
}

/// The text of an optional string value, copied.
pub fn str_in(d: Option<&Doc>) -> (r: Option<String>)
    ensures
        opt_view(r) == str_spec(opt_ref(d)),
{
    match d {
        Some(d) => match d.as_str() {
            Some(s) => Some(s.clone()),
            None => None,
        },
        None => None,
    }
}

} // verus!
