use polymc::auth::{microsoft_authorize_url, Auth, Query};
use polymc::config::{auth_from_parts, AuthProfile, GlobalConfig};
use polymc::error::Error;

#[test]
fn get_username() {
    let offline = Auth::new_offline("offline");
    assert_eq!(offline.get_username().as_str(), "offline");

    let mojang = Auth::Mojang {
        auth_type: "mojang".to_owned(),
        username: "mojang".to_string(),
        token: "".to_string(),
        uuid: "".to_string(),
    };
    assert_eq!(mojang.get_username().as_str(), "mojang");
}

#[test]
fn identity_accessors() {
    let offline = Auth::new_offline("p");
    assert!(offline.get_token().is_none());
    assert!(offline.get_uuid().is_none());
    assert_eq!(offline.get_auth_type(), "offline");

    let mojang = Auth::Mojang {
        auth_type: "mojang".to_owned(),
        username: "p".to_string(),
        token: "t-1".to_string(),
        uuid: "u-1".to_string(),
    };
    assert_eq!(mojang.get_token().unwrap().as_str(), "t-1");
    assert_eq!(mojang.get_uuid().unwrap().as_str(), "u-1");
    assert_eq!(mojang.get_auth_type(), "mojang");

    let msft = Auth::MSFT {
        auth_type: "microsoft".to_owned(),
        username: "p".to_string(),
        token: "t-2".to_string(),
        uuid: "u-2".to_string(),
        refresh_token: "".to_string(),
    };
    assert_eq!(msft.get_auth_type(), "microsoft");
    assert_eq!(msft.get_username().as_str(), "p");
}

#[test]
fn stored_profiles_round_back_into_identities() {
    let offline = auth_from_parts("offline", "p", "", "", "").unwrap();
    assert!(matches!(offline, Auth::Offline { .. }));
    assert_eq!(offline.get_username().as_str(), "p");

    let mojang = auth_from_parts("mojang", "p", "t", "u", "").unwrap();
    assert!(matches!(mojang, Auth::Mojang { .. }));
    assert_eq!(mojang.get_token().unwrap().as_str(), "t");

    let msft = auth_from_parts("microsoft", "p", "t", "u", "r").unwrap();
    assert!(matches!(msft, Auth::MSFT { .. }));

    assert!(matches!(
        auth_from_parts("yahoo", "p", "t", "u", "r"),
        Err(Error::Json)
    ));
}

#[test]
fn profile_and_config_defaults() {
    let config = GlobalConfig::new();
    assert_eq!(config.default_profile.as_str(), "default");
    assert_eq!(config.default_user_profile.as_str(), "");

    let profile = AuthProfile::new("p", Auth::new_offline("p"));
    assert_eq!(profile.name.as_str(), "p");
    assert_eq!(profile.auth.get_username().as_str(), "p");

    let q = Query::new("c-1", "s-1");
    assert_eq!(q.code.as_str(), "c-1");
    assert_eq!(q.state.as_str(), "s-1");
}

#[test]
fn authorize_url_weaves_in_the_parameters() {
    let url = microsoft_authorize_url("client-1", "http://localhost:8080", "st-1");
    assert_eq!(
        url.as_str(),
        "https://login.live.com/oauth20_authorize.srf?client_id=client-1&response_type=code&redirect_uri=http://localhost:8080&scope=XboxLive.signin%20offline_access&state=st-1"
    );
}
