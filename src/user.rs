//! How a user signs in, and its names.
use vstd::prelude::*;

use crate::text::{chars_of, same_chars, string_of};

verus! {

/// The provider through which a user signs in.
#[derive(Debug, Clone, Copy, PartialEq, Eq, Structural)]
pub enum Identity {
    Github,
    Basic,
    Google,
    Unknown,
}

/// The lower-case form of a string, as `str::to_lowercase` gives it.
pub uninterp spec fn lower_of(s: Seq<char>) -> Seq<char>;

/// A character in lower case where it is an ASCII capital.
pub open spec fn ascii_lower(c: char) -> char {
    if 'A' <= c && c <= 'Z' {
        ((c as u32) + 32) as char
    } else {
        c
    }
}

/// Relies on `str::to_lowercase`: the result depends on the characters alone,
/// and on ASCII text it maps A-Z to a-z and keeps every other character.
#[verifier::external_body]
fn lowercase(s: &str) -> (r: String)
    ensures
        r@ == lower_of(s@),
        (forall|i: int| 0 <= i < s@.len() ==> crate::text::is_ascii_char(#[trigger] s@[i]))
            ==> r@ == s@.map_values(|c: char| ascii_lower(c)),
{
    s.to_lowercase()
}

pub open spec fn github_name() -> Seq<char> {
    seq!['g', 'i', 't', 'h', 'u', 'b']
}

pub open spec fn basic_name() -> Seq<char> {
    seq!['b', 'a', 's', 'i', 'c']
}

pub open spec fn google_name() -> Seq<char> {
    seq!['g', 'o', 'o', 'g', 'l', 'e']
}

pub open spec fn unknown_name() -> Seq<char> {
    seq!['u', 'n', 'k', 'n', 'o', 'w', 'n']
}

/// The identity that a lower-case name stands for.
pub open spec fn identity_named(s: Seq<char>) -> Identity {
    if s == github_name() {
        Identity::Github
    } else if s == basic_name() {
        Identity::Basic
    } else if s == google_name() {
        Identity::Google
    } else {
        Identity::Unknown
    }
}

/// The name of an identity.
pub open spec fn name_of(i: Identity) -> Seq<char> {
    match i {
        Identity::Github => github_name(),
        Identity::Basic => basic_name(),
        Identity::Google => google_name(),
        Identity::Unknown => unknown_name(),
    }
}

impl Identity {
    /// The identity that `name`, already in lower case, stands for.
    pub fn from_lowercase(name: &str) -> (r: Identity)
        ensures
            r == identity_named(name@),
    {
        let s = chars_of(name);
        let github = vec!['g', 'i', 't', 'h', 'u', 'b'];
        let basic = vec!['b', 'a', 's', 'i', 'c'];
        let google = vec!['g', 'o', 'o', 'g', 'l', 'e'];
        assert(github@ =~= github_name());
        assert(basic@ =~= basic_name());
        assert(google@ =~= google_name());
        if same_chars(&s, &github) {
            Identity::Github
        } else if same_chars(&s, &basic) {
            Identity::Basic
        } else if same_chars(&s, &google) {
            Identity::Google
        } else {
            Identity::Unknown
        }
    }

    /// The name of this identity, in lower case.
    pub fn name(&self) -> (r: String)
        ensures
            r@ == name_of(*self),
    {
        let v = match self {
            Identity::Github => vec!['g', 'i', 't', 'h', 'u', 'b'],
            Identity::Basic => vec!['b', 'a', 's', 'i', 'c'],
            Identity::Google => vec!['g', 'o', 'o', 'g', 'l', 'e'],
            Identity::Unknown => vec!['u', 'n', 'k', 'n', 'o', 'w', 'n'],
        };
        assert(v@ =~= name_of(*self));
        string_of(&v)
    }
}

impl<'a> From<&'a str> for Identity {
    /// Names are matched without regard to case; any other name is unknown.
    fn from(input: &'a str) -> (r: Identity)
        ensures
            r == identity_named(lower_of(input@)),
            (forall|i: int| 0 <= i < input@.len() ==> crate::text::is_ascii_char(#[trigger] input@[i]))
                ==> r == identity_named(input@.map_values(|c: char| ascii_lower(c))),
    {
        let lower = lowercase(input);
        Identity::from_lowercase(lower.as_str())
    }
}

impl<'a> vstd::std_specs::convert::FromSpecImpl<&'a str> for Identity {
    open spec fn obeys_from_spec() -> bool {
        true
    }

    open spec fn from_spec(input: &'a str) -> Identity {
        identity_named(lower_of(input@))
    }
}

impl From<String> for Identity {
    fn from(input: String) -> (r: Identity)
        ensures
            r == identity_named(lower_of(input@)),
    {
        Identity::from(input.as_str())
    }
}

impl vstd::std_specs::convert::FromSpecImpl<String> for Identity {
    open spec fn obeys_from_spec() -> bool {
        true
    }

    open spec fn from_spec(input: String) -> Identity {
        identity_named(lower_of(input@))
    }
}

impl From<Identity> for String {
    fn from(input: Identity) -> (r: String)
        ensures
            r@ == name_of(input),
    {
        input.name()
    }
}

/// A `String` has no spec-level constructor from a view, so the name is
/// stated by the `ensures` of `from` instead.
impl vstd::std_specs::convert::FromSpecImpl<Identity> for String {
    open spec fn obeys_from_spec() -> bool {
        false
    }

    open spec fn from_spec(input: Identity) -> String {
        arbitrary()
    }
}

} // verus!
