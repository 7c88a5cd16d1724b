use tilde::error::Error;
use tilde::model::{ClientAuth, OAuth, OAuthGrant};
use tilde::wire_model::{
    client_auth_from_number, client_auth_number, grant_from_number, grant_number, input_values, oauth_model,
    oauth_wire, parameters_model, WireOAuth,
};

fn pair(a: &str, b: &str) -> (String, String) {
    (a.to_string(), b.to_string())
}

#[test]
fn wire_numbers_read_back() {
    for a in [ClientAuth::Body, ClientAuth::Basic, ClientAuth::NoAuth] {
        assert_eq!(client_auth_from_number(client_auth_number(a)).unwrap(), a);
    }
    assert_eq!(client_auth_from_number(0).unwrap(), ClientAuth::Body);
    match client_auth_from_number(9) {
        Err(Error::Invalid(m)) => assert_eq!(m, "Unknown OAuth client authentication"),
        other => panic!("{other:?}"),
    }
    for g in [OAuthGrant::AuthorizationCode, OAuthGrant::ClientCredentials, OAuthGrant::JwtBearer] {
        assert_eq!(grant_from_number(grant_number(g)).unwrap(), g);
    }
    match grant_from_number(0) {
        Err(Error::Invalid(m)) => assert_eq!(m, "OAuth grant required"),
        other => panic!("{other:?}"),
    }
}

#[test]
fn parameters_and_inputs_are_keyed_once() {
    assert_eq!(parameters_model(vec![pair("b", "2"), pair("a", "1")]).unwrap(), vec![pair("a", "1"), pair("b", "2")]);
    match parameters_model(vec![pair("a", "1"), pair("a", "2")]) {
        Err(Error::Invalid(m)) => assert_eq!(m, "Duplicate OAuth parameter"),
        other => panic!("{other:?}"),
    }
    assert_eq!(input_values(vec![pair("k", "v")]).unwrap(), vec![pair("k", "v")]);
    match input_values(vec![pair("k", "v"), pair("k", "w")]) {
        Err(Error::Invalid(m)) => assert_eq!(m, "Duplicate input field"),
        other => panic!("{other:?}"),
    }
    match input_values(vec![pair("", "v")]) {
        Err(Error::Invalid(m)) => assert_eq!(m, "Too many or oversized setup values"),
        other => panic!("{other:?}"),
    }
}

#[test]
fn oauth_settings_take_defaults_and_read_back() {
    let wire = WireOAuth {
        authorization_url: Some("https://idp/authorize".into()),
        token_url: "https://idp/token".into(),
        client_authentication: 2,
        pkce: false,
        scopes: vec!["read".into()],
        scope_separator: String::new(),
        authorization_parameters: vec![pair("prompt", "consent")],
        token_parameters: vec![],
        access_token_path: String::new(),
        refresh_token_path: "/data/refresh".into(),
        expires_in_path: String::new(),
        scope_path: String::new(),
        success_path: Some("/ok".into()),
        result_fields: vec![],
    };
    let model = oauth_model(wire).unwrap();
    assert_eq!(model.client_auth, ClientAuth::Basic);
    assert_eq!(model.scope_separator, " ");
    assert_eq!(model.access_token_path, "/access_token");
    assert_eq!(model.refresh_token_path, "/data/refresh");
    assert_eq!(model.expires_in_path, "/expires_in");
    assert_eq!(model.scope_path, "/scope");
    let again = oauth_model(oauth_wire(model)).unwrap();
    assert_eq!(again.client_auth, ClientAuth::Basic);
    assert_eq!(again.authorization_parameters, vec![pair("prompt", "consent")]);
    assert_eq!(again.refresh_token_path, "/data/refresh");
    let standard = OAuth::standard("https://idp/token");
    let back = oauth_model(oauth_wire(standard)).unwrap();
    assert_eq!(back.token_url, "https://idp/token");
    assert!(back.pkce);
}
