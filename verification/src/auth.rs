//! Identities the launcher runs under.  The crate never validates tokens;
//! it only carries them into the launch plan.

use vstd::prelude::*;

verus! {

/// An identity: offline (no token), a classic account, or a Microsoft
/// account with a refresh token.
#[derive(Debug)]
pub enum Auth {
    Offline { auth_type: String, username: String },
    Mojang { auth_type: String, username: String, token: String, uuid: String },
    MSFT {
        auth_type: String,
        username: String,
        token: String,
        uuid: String,
        refresh_token: String,
    },
}

impl Clone for Auth {
    fn clone(&self) -> (r: Auth)
        ensures
            r.spec_username() == self.spec_username(),
            r.spec_token() == self.spec_token(),
            r.spec_uuid() == self.spec_uuid(),
            r is Offline <==> self is Offline,
            r is Mojang <==> self is Mojang,
            r is MSFT <==> self is MSFT,
    {
        match self {
            Auth::Offline { auth_type, username } => Auth::Offline {
                auth_type: auth_type.clone(),
                username: username.clone(),
            },
            Auth::Mojang { auth_type, username, token, uuid } => Auth::Mojang {
                auth_type: auth_type.clone(),
                username: username.clone(),
                token: token.clone(),
                uuid: uuid.clone(),
            },
            Auth::MSFT { auth_type, username, token, uuid, refresh_token } => Auth::MSFT {
                auth_type: auth_type.clone(),
                username: username.clone(),
                token: token.clone(),
                uuid: uuid.clone(),
                refresh_token: refresh_token.clone(),
            },
        }
    }
}

impl Auth {
    /// The username the identity carries.
    pub open spec fn spec_username(&self) -> Seq<char> {
        match self {
            Auth::Offline { username, .. } => username@,
            Auth::Mojang { username, .. } => username@,
            Auth::MSFT { username, .. } => username@,
        }
    }

    /// The access token, absent for an offline identity.
    pub open spec fn spec_token(&self) -> Option<Seq<char>> {
        match self {
            Auth::Offline { .. } => None,
            Auth::Mojang { token, .. } => Some(token@),
            Auth::MSFT { token, .. } => Some(token@),
        }
    }

    /// The UUID, absent for an offline identity.
    pub open spec fn spec_uuid(&self) -> Option<Seq<char>> {
        match self {
            Auth::Offline { .. } => None,
            Auth::Mojang { uuid, .. } => Some(uuid@),
            Auth::MSFT { uuid, .. } => Some(uuid@),
        }
    }

    /// A new offline user.
    pub fn new_offline(name: &str) -> (r: Auth)
        ensures
            r is Offline,
            r.spec_username() == name@,
            r.spec_token() is None,
            r.spec_uuid() is None,
    {
        Auth::Offline { auth_type: String::from_str("offline"), username: name.to_owned() }
    }

    /// The username from the current identity.
    pub fn get_username(&self) -> (r: &String)
        ensures
            r@ == self.spec_username(),
    {
        match self {
            Auth::Offline { username, .. } => username,
            Auth::Mojang { username, .. } => username,
            Auth::MSFT { username, .. } => username,
        }
    }

    /// The access token, absent for an offline identity.
    pub fn get_token(&self) -> (r: Option<&String>)
        ensures
            match r {
                Some(t) => self.spec_token() == Some(t@),
                None => self.spec_token() is None,
            },
    {
        match self {
            Auth::Offline { .. } => None,
            Auth::Mojang { token, .. } => Some(token),
            Auth::MSFT { token, .. } => Some(token),
        }
    }

    /// The UUID, absent for an offline identity.
    pub fn get_uuid(&self) -> (r: Option<&String>)
        ensures
            match r {
                Some(u) => self.spec_uuid() == Some(u@),
                None => self.spec_uuid() is None,
            },
    {
        match self {
            Auth::Offline { .. } => None,
            Auth::Mojang { uuid, .. } => Some(uuid),
            Auth::MSFT { uuid, .. } => Some(uuid),
        }
    }

    /// The name of the identity's kind.
    pub fn get_auth_type(&self) -> (r: &'static str)
        ensures
            match self {
                Auth::Offline { .. } => r@ == "offline"@,
                Auth::Mojang { .. } => r@ == "mojang"@,
                Auth::MSFT { .. } => r@ == "microsoft"@,
            },
    {
        match self {
            Auth::Offline { .. } => "offline",
            Auth::Mojang { .. } => "mojang",
            Auth::MSFT { .. } => "microsoft",
        }
    }
}

/// The authorization URL the Microsoft login flow opens:
/// `https://login.live.com/oauth20_authorize.srf` with the client id, the
/// redirect URL and the state woven in.
pub fn microsoft_authorize_url(client_id: &str, redirect_url: &str, state: &str) -> (r: String)
    ensures
        r@ == "https://login.live.com/oauth20_authorize.srf?client_id="@ + client_id@
            + "&response_type=code&redirect_uri="@ + redirect_url@
            + "&scope=XboxLive.signin%20offline_access&state="@ + state@,
{
    let mut r = String::from_str("https://login.live.com/oauth20_authorize.srf?client_id=");
    r.append(client_id);
    r.append("&response_type=code&redirect_uri=");
    r.append(redirect_url);
    r.append("&scope=XboxLive.signin%20offline_access&state=");
    r.append(state);
    r
}

/// The query parameters the OAuth redirect endpoint receives.
#[derive(Debug)]
pub struct Query {
    pub code: String,
    pub state: String,
}

impl Query {
    /// A query with the given parameters.
    pub fn new(code: &str, state: &str) -> (r: Query)
        ensures
            r.code@ == code@,
            r.state@ == state@,
    {
        Query { code: code.to_owned(), state: state.to_owned() }
    }
}

} // verus!
