//! Configuration keys with an optional prefix, and how a looked-up value is
//! resolved against a default.
use vstd::prelude::*;

verus! {

/// A source of configuration values whose keys may carry a common prefix.
pub struct Env {
    prefix: Option<String>,
}

impl View for Env {
    type V = Option<Seq<char>>;

    closed spec fn view(&self) -> Option<Seq<char>> {
        match self.prefix {
            Some(p) => Some(p@),
            None => None,
        }
    }
}

/// The full name of `key`: `PREFIX_key` with a prefix, `key` without.
pub open spec fn full_key(prefix: Option<Seq<char>>, key: Seq<char>) -> Seq<char> {
    match prefix {
        Some(p) => p + seq!['_'] + key,
        None => key,
    }
}

/// What a lookup gives: the parsed value where the key is present, the
/// default where it is absent, else an error.
pub open spec fn resolved<T, E>(r: Result<T, String>, found: Option<Result<T, E>>, default: Option<T>) -> bool {
    match found {
        None => match default {
            Some(d) => r == Ok::<T, String>(d),
            None => r is Err && r->Err_0@ == "key not found"@,
        },
        Some(Ok(v)) => r == Ok::<T, String>(v),
        Some(Err(_)) => r is Err && r->Err_0@ == "parsing failure"@,
    }
}

impl Env {
    pub fn new() -> (r: Env)
        ensures
            r@ == None::<Seq<char>>,
    {
        Env { prefix: None }
    }

    pub fn with_prefix(prefix: &str) -> (r: Env)
        ensures
            r@ == Some(prefix@),
    {
        Env { prefix: Some(String::from_str(prefix)) }
    }

    /// The name under which `key` is looked up.
    pub fn key(&self, key: &str) -> (r: String)
        ensures
            r@ == full_key(self@, key@),
    {
        match &self.prefix {
            Some(prefix) => {
                let mut k = prefix.clone();
                k.append("_");
                k.append(key);
                proof {
                    reveal_strlit("_");
                }
                k
            },
            None => String::from_str(key),
        }
    }

    /// Looks `key` up under its full name through `read`, which gives `None`
    /// for an absent key and the result of parsing a present one.
    pub fn get<T, E, F>(&self, key: &str, default: Option<T>, read: F) -> (r: Result<T, String>)
        where
            F: Fn(&String) -> Option<Result<T, E>>,
        requires
            forall|k: &String| #[trigger] read.requires((k,)),
        ensures
            exists|k: String, found: Option<Result<T, E>>|
                k@ == full_key(self@, key@) && read.ensures((&k,), found) && resolved(r, found, default),
    {
        let k = self.key(key);
        let found = read(&k);
        get(found, default)
    }
}

/// Resolves the outcome of a lookup against a default.
pub fn get<T, E>(found: Option<Result<T, E>>, default: Option<T>) -> (r: Result<T, String>)
    ensures
        resolved(r, found, default),
{
    match found {
        Some(Ok(v)) => Ok(v),
        Some(Err(_)) => Err(String::from_str("parsing failure")),
        None => match default {
            Some(d) => Ok(d),
            None => Err(String::from_str("key not found")),
        },
    }
}

} // verus!
