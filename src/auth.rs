use vstd::prelude::*;

use crate::clerk::{extract_token_from_header, token_of, ClerkUser};

verus! {

/// A caller whose bearer token the identity layer accepted.
#[derive(Debug)]
pub struct AuthenticatedUser {
    pub clerk_user_id: String,
    pub user: ClerkUser,
}

/// Why a caller was not authenticated.
#[derive(Debug)]
pub struct AuthError(pub String);

/// A caller that may or may not have presented an accepted token.
#[derive(Debug)]
pub struct OptionalAuthenticatedUser(pub Option<AuthenticatedUser>);

impl AuthenticatedUser {
    /// The caller `user` stands for.
    pub fn from_user(user: ClerkUser) -> (r: AuthenticatedUser)
        ensures
            r.clerk_user_id@ == user.id@,
            r.user == user,
    {
        AuthenticatedUser { clerk_user_id: user.id.clone(), user }
    }
}

/// The bearer token of a request's Authorization header, or why there is none.
pub fn bearer_token(header: Option<&str>) -> (r: Result<&str, AuthError>)
    ensures
        header is None ==> (r matches Err(e) && e.0@ == "Missing Authorization header"@),
        header matches Some(h) ==> (token_of(h@) is None ==> (r matches Err(e) && e.0@
            == "Invalid Authorization header format"@)),
        header matches Some(h) ==> (token_of(h@) matches Some(t) ==> (r matches Ok(s) && s@
            == t)),
{
    match header {
        None => Err(AuthError(String::from_str("Missing Authorization header"))),
        Some(h) => match extract_token_from_header(h) {
            Some(t) => Ok(t),
            None => Err(AuthError(String::from_str("Invalid Authorization header format"))),
        },
    }
}

} // verus!
