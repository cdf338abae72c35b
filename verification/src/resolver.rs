use std::sync::Arc;
use vstd::prelude::*;

verus! {

/// A TXT-record resolver: it holds the function that looks a domain name up.
/// Cloning a resolver shares that function.
#[derive(Clone)]
pub struct Resolver<F> {
    lookup: Arc<F>,
}

impl<F> Resolver<F> {
    /// The lookup function this resolver calls.
    pub closed spec fn lookup_fn(&self) -> F {
        *self.lookup
    }

    /// Makes a resolver around a lookup function.
    pub fn new(f: F) -> (res: Self)
        ensures
            res.lookup_fn() == f,
    {
        Resolver { lookup: Arc::new(f) }
    }

    /// Looks up the TXT records of `domain` by calling the lookup function on it.
    pub fn lookup_txt<R>(&self, domain: &str) -> (res: R)
        where F: Fn(&str) -> R,
        requires
            call_requires(self.lookup_fn(), (domain,)),
        ensures
            call_ensures(self.lookup_fn(), (domain,), res),
    {
        let f: &F = &self.lookup;
        f(domain)
    }
}

} // verus!
