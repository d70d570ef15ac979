//! What every call to the tracker shares: where it is and who is asking.

use vstd::prelude::*;

verus! {

/// Where the tracker's API is, and the identity under which it is asked. The
/// identity is never empty: the tracker refuses requests that name no user agent.
#[derive(Debug)]
pub struct Client {
    base_url: String,
    user_agent: String,
}

impl Client {
    #[verifier::type_invariant]
    spec fn identified(&self) -> bool {
        self.user_agent@.len() > 0
    }

    /// The address that every request starts with.
    pub closed spec fn base(&self) -> Seq<char> {
        self.base_url@
    }

    /// The identity that every request carries.
    pub closed spec fn identity(&self) -> Seq<char> {
        self.user_agent@
    }

    /// A client of the public API, asking as `user_agent`. `None` where the
    /// identity is empty.
    pub fn new(user_agent: &str) -> (r: Option<Client>)
        ensures
            r is Some <==> user_agent@.len() > 0,
            r matches Some(c) ==> c.base() == "https://api.github.com/"@ && c.identity()
                == user_agent@,
    {
        Client::with_base_url("https://api.github.com/", user_agent)
    }

    /// A client of the API that answers under `base_url`, which ends in `/`.
    /// `None` where the identity is empty.
    pub fn with_base_url(base_url: &str, user_agent: &str) -> (r: Option<Client>)
        ensures
            r is Some <==> user_agent@.len() > 0,
            r matches Some(c) ==> c.base() == base_url@ && c.identity() == user_agent@,
    {
        if user_agent.is_empty() {
            None
        } else {
            Some(
                Client {
                    base_url: String::from_str(base_url),
                    user_agent: String::from_str(user_agent),
                },
            )
        }
    }

    /// The address that every request starts with.
    pub fn base_url(&self) -> (r: &str)
        ensures
            r@ == self.base(),
    {
        self.base_url.as_str()
    }

    /// The identity that every request carries. It is not empty.
    pub fn user_agent(&self) -> (r: &str)
        ensures
            r@ == self.identity(),
            r@.len() > 0,
    {
        proof {
            use_type_invariant(self);
        }
        self.user_agent.as_str()
    }
}

} // verus!
