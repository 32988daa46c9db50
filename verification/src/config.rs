//! Global configuration and stored identity profiles.  Reading and
//! writing the files is the shell's job; the crate holds the values and
//! the rules that turn stored fields back into an identity.

use vstd::prelude::*;

use crate::auth::Auth;
use crate::error::Error;
use crate::strutil::str_eq;

verus! {

/// The launcher-wide configuration.
#[derive(Debug)]
pub struct GlobalConfig {
    /// The default game profile.
    pub default_profile: String,
    /// The default user profile.
    pub default_user_profile: String,
}

impl GlobalConfig {
    /// The configuration a fresh install starts from.
    pub fn new() -> (r: GlobalConfig)
        ensures
            r.default_profile@ == "default"@,
            r.default_user_profile@.len() == 0,
    {
        GlobalConfig {
            default_profile: String::from_str("default"),
            default_user_profile: String::new(),
        }
    }
}

/// A stored identity profile: a name and the identity itself.
#[derive(Debug)]
pub struct AuthProfile {
    /// Name of the profile.  This will usually be the username.
    pub name: String,
    /// The identity.
    pub auth: Auth,
}

impl AuthProfile {
    /// A profile with the given name and identity.
    pub fn new(name: &str, auth: Auth) -> (r: AuthProfile)
        ensures
            r.name@ == name@,
            r.auth == auth,
    {
        AuthProfile { name: name.to_owned(), auth }
    }
}

/// The identity stored under the given fields: `offline` carries only the
/// username; `mojang` adds token and UUID; `microsoft` adds the refresh
/// token.  An unknown kind is malformed profile data.
pub fn auth_from_parts(
    auth_type: &str,
    username: &str,
    token: &str,
    uuid: &str,
    refresh_token: &str,
) -> (r: Result<Auth, Error>)
    ensures
        r is Ok <==> (auth_type@ == "offline"@ || auth_type@ == "mojang"@ || auth_type@
            == "microsoft"@),
        r matches Ok(a) ==> a.spec_username() == username@,
        r matches Ok(a) ==> (auth_type@ == "offline"@ ==> a is Offline),
        r matches Ok(a) ==> (auth_type@ == "mojang"@ ==> a is Mojang && a.spec_token() == Some(
            token@,
        ) && a.spec_uuid() == Some(uuid@)),
        r matches Ok(a) ==> (auth_type@ == "microsoft"@ ==> a is MSFT && a.spec_token() == Some(
            token@,
        ) && a.spec_uuid() == Some(uuid@)),
        r is Err ==> r == Err::<Auth, Error>(Error::Json),
{
    proof {
        reveal_strlit("offline");
        reveal_strlit("mojang");
        reveal_strlit("microsoft");
    }
    if str_eq(auth_type, "offline") {
        proof {
            reveal_strlit("offline");
            reveal_strlit("mojang");
            reveal_strlit("microsoft");
            assert("offline"@.len() == 7);
            assert("mojang"@.len() == 6);
            assert("microsoft"@.len() == 9);
            assert(auth_type@ != "mojang"@);
            assert(auth_type@ != "microsoft"@);
        }
        Ok(Auth::new_offline(username))
    } else if str_eq(auth_type, "mojang") {
        let a = Auth::Mojang {
            auth_type: String::from_str("mojang"),
            username: username.to_owned(),
            token: token.to_owned(),
            uuid: uuid.to_owned(),
        };
        proof {
            reveal_strlit("mojang");
            reveal_strlit("microsoft");
            assert("mojang"@.len() == 6);
            assert("microsoft"@.len() == 9);
            assert(a is Mojang);
            assert(a.spec_token() == Some(token@));
            assert(a.spec_uuid() == Some(uuid@));
            assert(auth_type@ != "microsoft"@);
        }
        Ok(a)
    } else if str_eq(auth_type, "microsoft") {
        let a = Auth::MSFT {
            auth_type: String::from_str("microsoft"),
            username: username.to_owned(),
            token: token.to_owned(),
            uuid: uuid.to_owned(),
            refresh_token: refresh_token.to_owned(),
        };
        proof {
            reveal_strlit("mojang");
            reveal_strlit("microsoft");
            assert("mojang"@.len() == 6);
            assert("microsoft"@.len() == 9);
            assert(a is MSFT);
            assert(a.spec_token() == Some(token@));
            assert(a.spec_uuid() == Some(uuid@));
            assert(auth_type@ != "mojang"@);
        }
        Ok(a)
    } else {
        Err(Error::Json)
    }
}

} // verus!
