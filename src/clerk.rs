use vstd::prelude::*;

verus! {

/// What the identity provider knows of a user.
#[derive(Debug)]
pub struct ClerkUser {
    pub id: String,
    pub username: Option<String>,
    pub first_name: Option<String>,
    pub last_name: Option<String>,
    pub image_url: Option<String>,
}

/// The claims of an identity token, with the profile fields a token may carry.
#[derive(Debug)]
pub struct ClerkClaims {
    /// The user id.
    pub sub: String,
    pub exp: usize,
    pub iat: usize,
    pub iss: Option<String>,
    pub azp: Option<String>,
    pub id: Option<String>,
    pub username: Option<String>,
    pub first_name: Option<String>,
    pub last_name: Option<String>,
    pub image_url: Option<String>,
    /// What some setups use in place of `image_url`.
    pub image: Option<String>,
}

/// Whether an optional text is present and not empty.
pub open spec fn filled(o: Option<String>) -> bool {
    o matches Some(s) && s@.len() > 0
}

/// The text of an optional text that is present.
pub open spec fn text_of(o: Option<String>) -> Seq<char> {
    match o {
        Some(s) => s@,
        None => Seq::empty(),
    }
}

/// The name a user is shown by: first and last name, else either of them,
/// else the username, else "User " and the first 8 characters of the id.
pub open spec fn display_name_of(u: ClerkUser) -> Seq<char> {
    if filled(u.first_name) && filled(u.last_name) {
        text_of(u.first_name) + " "@ + text_of(u.last_name)
    } else if filled(u.first_name) {
        text_of(u.first_name)
    } else if filled(u.last_name) {
        text_of(u.last_name)
    } else if filled(u.username) {
        text_of(u.username)
    } else if u.id@.len() > 8 {
        "User "@ + u.id@.subrange(0, 8)
    } else {
        "User "@ + u.id@
    }
}

fn is_filled(o: &Option<String>) -> (r: bool)
    ensures
        r == filled(*o),
{
    match o {
        Some(s) => s.as_str().unicode_len() > 0,
        None => false,
    }
}

fn copy_text(o: &Option<String>) -> (r: Option<String>)
    ensures
        r == *o,
{
    match o {
        Some(s) => Some(s.clone()),
        None => None,
    }
}

/// Length, in characters, of the id prefix a fallback name shows.
pub const SHORT_ID_CHARS: usize = 8;

impl ClerkUser {
    /// The name this user is shown by.
    pub fn display_name(&self) -> (r: String)
        ensures
            r@ == display_name_of(*self),
    {
        if is_filled(&self.first_name) && is_filled(&self.last_name) {
            let first = self.first_name.as_ref().unwrap();
            let last = self.last_name.as_ref().unwrap();
            return first.clone().concat(" ").concat(last.as_str());
        }
        if is_filled(&self.first_name) {
            return self.first_name.as_ref().unwrap().clone();
        }
        if is_filled(&self.last_name) {
            return self.last_name.as_ref().unwrap().clone();
        }
        if is_filled(&self.username) {
            return self.username.as_ref().unwrap().clone();
        }
        let id = self.id.as_str();
        if id.unicode_len() > SHORT_ID_CHARS {
            String::from_str("User ").concat(id.substring_char(0, SHORT_ID_CHARS))
        } else {
            String::from_str("User ").concat(id)
        }
    }

    /// A user of whom nothing but the id is known.
    pub fn minimal(id: String) -> (r: ClerkUser)
        ensures
            r.id == id,
            r.username is None,
            r.first_name is None,
            r.last_name is None,
            r.image_url is None,
    {
        ClerkUser { id, username: None, first_name: None, last_name: None, image_url: None }
    }
}

/// The prefix of an Authorization header that carries a bearer token.
pub open spec fn bearer_prefix() -> Seq<char> {
    seq!['B', 'e', 'a', 'r', 'e', 'r', ' ']
}

/// The token of a header of the form `Bearer <token>`.
pub open spec fn token_of(h: Seq<char>) -> Option<Seq<char>> {
    if h.len() >= 7 && h.subrange(0, 7) == bearer_prefix() {
        Some(h.subrange(7, h.len() as int))
    } else {
        None
    }
}

/// The token of an Authorization header of the form `Bearer <token>`.
pub fn extract_token_from_header(auth_header: &str) -> (r: Option<&str>)
    ensures
        token_of(auth_header@) is None ==> r is None,
        token_of(auth_header@) matches Some(t) ==> (r matches Some(s) && s@ == t),
{
    let n = auth_header.unicode_len();
    if n < 7 {
        return None;
    }
    let prefix: [char; 7] = ['B', 'e', 'a', 'r', 'e', 'r', ' '];
    let mut i: usize = 0;
    while i < 7
        invariant
            n == auth_header@.len(),
            n >= 7,
            i <= 7,
            prefix@ == bearer_prefix(),
            forall|j: int| 0 <= j < i ==> auth_header@[j] == bearer_prefix()[j],
        decreases 7 - i,
    {
        if auth_header.get_char(i) != prefix[i] {
            assert(auth_header@.subrange(0, 7)[i as int] != bearer_prefix()[i as int]);
            return None;
        }
        i = i + 1;
    }
    assert(auth_header@.subrange(0, 7) =~= bearer_prefix());
    Some(auth_header.substring_char(7, n))
}

/// The user an identity token describes when it carries any profile field:
/// the id is `id` when given, else the subject; the image is `image_url`,
/// else `image`. None when the token carries no profile field.
pub fn user_from_claims(claims: &ClerkClaims) -> (r: Option<ClerkUser>)
    ensures
        (claims.username is None && claims.first_name is None && claims.last_name is None
            && claims.image_url is None && claims.image is None) <==> r is None,
        r matches Some(u) ==> {
            &&& u.id@ == (match claims.id {
                Some(i) => i@,
                None => claims.sub@,
            })
            &&& u.username == claims.username
            &&& u.first_name == claims.first_name
            &&& u.last_name == claims.last_name
            &&& u.image_url == (if claims.image_url is Some {
                claims.image_url
            } else {
                claims.image
            })
        },
{
    let image_url = if claims.image_url.is_some() {
        copy_text(&claims.image_url)
    } else {
        copy_text(&claims.image)
    };
    if claims.username.is_none() && claims.first_name.is_none() && claims.last_name.is_none()
        && image_url.is_none() {
        return None;
    }
    let id = match &claims.id {
        Some(i) => i.clone(),
        None => claims.sub.clone(),
    };
    Some(
        ClerkUser {
            id,
            username: copy_text(&claims.username),
            first_name: copy_text(&claims.first_name),
            last_name: copy_text(&claims.last_name),
            image_url,
        },
    )
}

/// The user an identity token names when it carries no profile field and no
/// profile can be fetched.
pub fn user_from_subject(claims: &ClerkClaims) -> (r: ClerkUser)
    ensures
        r.id@ == (match claims.id {
            Some(i) => i@,
            None => claims.sub@,
        }),
        r.username is None && r.first_name is None && r.last_name is None && r.image_url is None,
{
    let id = match &claims.id {
        Some(i) => i.clone(),
        None => claims.sub.clone(),
    };
    ClerkUser::minimal(id)
}

/// How identity tokens are checked.
#[derive(PartialEq, Eq, Structural, Clone, Copy, Debug)]
pub enum ValidationMode {
    /// Signatures are checked against the provider's published keys.
    Strict,
    /// Signatures and expiry are not checked; for local development only.
    Development,
}

/// The checking mode a configuration asks for: with both the secret key and
/// the key-set URL, strict; with neither, development; with one of them
/// only, none, as that configuration is refused.
pub fn validation_mode(has_secret_key: bool, has_jwks_url: bool) -> (r: Option<ValidationMode>)
    ensures
        has_secret_key && has_jwks_url ==> r == Some(ValidationMode::Strict),
        !has_secret_key && !has_jwks_url ==> r == Some(ValidationMode::Development),
        has_secret_key != has_jwks_url ==> r is None,
{
    if has_secret_key && has_jwks_url {
        Some(ValidationMode::Strict)
    } else if !has_secret_key && !has_jwks_url {
        Some(ValidationMode::Development)
    } else {
        None
    }
}

} // verus!
