use firebase_emu::accounts::{project_namespace, LookupRequest, WriteAccountRequest};
use firebase_emu::auth::{auth_error, read_claims, Auth};
use firebase_emu::json::Json;
use firebase_emu::timestamps::{now_millis, unix_now};

fn write_request(local_id: &str, email: &str) -> WriteAccountRequest {
    let mut request = WriteAccountRequest::none();
    request.local_id = Some(local_id.to_owned());
    request.email = Some(email.to_owned());
    request
}

fn by_id(local_id: &str) -> LookupRequest {
    LookupRequest {
        id_token: None,
        local_id: vec![local_id.to_owned()],
        email: Vec::new(),
        phone_number: Vec::new(),
        federated_user_id: Vec::new(),
    }
}

fn by_token(token: &str) -> LookupRequest {
    let mut request = by_id("");
    request.local_id = Vec::new();
    request.id_token = Some(token.to_owned());
    request
}

fn credentials(password: &str) -> WriteAccountRequest {
    let mut request = WriteAccountRequest::none();
    request.email = Some("session@example.test".into());
    request.password = Some(password.into());
    request
}

fn sign_in(auth: &mut Auth, ns: &str, password: &str) -> Result<Json, String> {
    auth.sign_in(ns, Some("session@example.test".into()), Some(password.into()))
}

#[test]
fn create_lookup_update_list_delete_round_trip() {
    let mut auth = Auth::new();
    let ns = project_namespace("demo-test");
    let created = auth.create_account(&ns, write_request("user-1", "old@example.test")).unwrap();
    assert_eq!(created.text("localId"), "user-1");
    assert_eq!(created.bool_at("emailVerified"), Some(false));
    assert!(!created.text("createdAt").is_empty());

    let looked_up = auth.lookup_accounts(&ns, by_id("user-1"), unix_now()).unwrap();
    assert_eq!(looked_up.items("users").unwrap()[0].text("email"), "old@example.test");

    let mut request = WriteAccountRequest::none();
    request.local_id = Some("user-1".to_owned());
    request.email = Some("new@example.test".to_owned());
    request.display_name = Some("Test User".to_owned());
    request.email_verified = Some(true);
    let updated = auth.update_account(&ns, request).unwrap();
    assert_eq!(updated.text("email"), "new@example.test");
    assert_eq!(updated.text("displayName"), "Test User");
    assert_eq!(updated.bool_at("emailVerified"), Some(true));

    let listed = auth.batch_get_accounts(&ns, Some(100));
    assert_eq!(listed.items("users").unwrap().len(), 1);

    auth.delete_account(&ns, None, "user-1".to_owned(), unix_now()).unwrap();
    let missing = auth.lookup_accounts(&ns, by_id("user-1"), unix_now()).unwrap();
    assert!(missing.items("users").unwrap().is_empty());
}

#[test]
fn enforces_unique_email_case_insensitively() {
    let mut auth = Auth::new();
    let ns = project_namespace("demo-test");
    auth.create_account(&ns, write_request("one", "User@Example.test")).unwrap();
    let error = auth.create_account(&ns, write_request("two", "user@example.test")).unwrap_err();
    assert_eq!(error, "EMAIL_EXISTS");
}

#[test]
fn keeps_projects_isolated() {
    let mut auth = Auth::new();
    for project in ["project-a", "project-b"] {
        auth.create_account(
            &project_namespace(project),
            write_request("same-uid", "same@example.test"),
        )
        .unwrap();
    }
    assert_eq!(auth.list_users(&project_namespace("project-a"), 100).len(), 1);
}

#[test]
fn browser_and_admin_share_users_and_reject_invalid_credentials() {
    let mut auth = Auth::new();
    let ns = project_namespace("demo-firebase");
    let session = auth.sign_up(&ns, credentials("secret123")).unwrap();
    let uid = session.text("localId");
    assert_eq!(sign_in(&mut auth, &ns, "incorrect").unwrap_err(), "INVALID_PASSWORD");
    assert_eq!(auth.sign_up(&ns, credentials("secret123")).unwrap_err(), "EMAIL_EXISTS");
    let token = session.text("idToken");
    let found = auth.lookup_accounts(&ns, by_token(&token), unix_now()).unwrap();
    assert_eq!(found.items("users").unwrap()[0].text("localId"), uid);
    assert!(found.items("users").unwrap()[0].get("password").is_none());
    let mut request = WriteAccountRequest::none();
    request.local_id = Some(uid.clone());
    request.display_name = Some("Admin edit".into());
    request.password = Some("newsecret".into());
    auth.update_account(&ns, request).unwrap();
    assert_eq!(
        auth.session_user(&ns, &token, unix_now()).unwrap().display_name.as_deref(),
        Some("Admin edit")
    );
    assert!(sign_in(&mut auth, &ns, "secret123").is_err());
    assert!(sign_in(&mut auth, &ns, "newsecret").is_ok());
    assert!(auth.session_user(&project_namespace("other"), &token, unix_now()).is_err());
    assert!(auth.session_user(&ns, "forged.token.", unix_now()).is_err());
    auth.delete_account(&ns, None, uid, unix_now()).unwrap();
    assert_eq!(
        auth.session_user(&ns, &token, unix_now()).err().unwrap(),
        "INVALID_ID_TOKEN"
    );
}

#[test]
fn configured_project_claims_survive_signup_signin_and_refresh() {
    let project = "demo-real-app-auth";
    let mut auth = Auth::new();
    let ns = project_namespace(project);
    let assert_project = |session: &Json, key: &str| {
        let claims = read_claims(&session.text(key)).unwrap();
        assert_eq!(
            claims.text("iss"),
            format!("https://securetoken.google.com/{project}")
        );
        assert_eq!(claims.text("aud"), project);
    };
    let signup = auth.sign_up(&ns, credentials("secret123")).unwrap();
    assert_project(&signup, "idToken");
    let signin = sign_in(&mut auth, &ns, "secret123").unwrap();
    assert_project(&signin, "idToken");
    let refresh = signin.text("refreshToken");
    let refreshed = auth.refresh_token(Some("refresh_token"), Some(&refresh)).unwrap();
    assert_project(&refreshed, "id_token");
    assert_eq!(refreshed.text("project_id"), project);
}

#[test]
fn refresh_rejects_id_tokens_and_revoked_sessions() {
    let mut auth = Auth::new();
    let ns = project_namespace("demo-firebase");
    let session = auth.sign_up(&ns, credentials("secret123")).unwrap();
    let (token, refresh) = (session.text("idToken"), session.text("refreshToken"));
    assert_eq!(
        auth.refresh_token(Some("refresh_token"), Some(&token)).unwrap_err(),
        "INVALID_REFRESH_TOKEN"
    );
    auth.refresh_token(Some("refresh_token"), Some(&refresh)).unwrap();
    let mut request = WriteAccountRequest::none();
    request.local_id = Some(session.text("localId"));
    request.valid_since = Some("9999999999".into());
    auth.update_account(&ns, request).unwrap();
    assert_eq!(
        auth.refresh_token(Some("refresh_token"), Some(&refresh)).unwrap_err(),
        "TOKEN_EXPIRED"
    );
    assert_eq!(auth.session_user(&ns, &token, unix_now()).err().unwrap(), "TOKEN_EXPIRED");
}

#[test]
fn browser_updates_and_deletes_admin_user() {
    let mut auth = Auth::new();
    let ns = project_namespace("demo-firebase");
    auth.create_account(&ns, credentials("secret123")).unwrap();
    let session = sign_in(&mut auth, &ns, "secret123").unwrap();
    let token = session.text("idToken");
    let mut request = WriteAccountRequest::none();
    request.id_token = Some(token.clone());
    request.display_name = Some("Browser edit".into());
    let updated = auth.update_account(&ns, request).unwrap();
    assert!(!updated.text("refreshToken").is_empty());
    assert_eq!(auth.list_users(&ns, 10)[0].text("displayName"), "Browser edit");
    auth.delete_account(&ns, Some(token), String::new(), unix_now()).unwrap();
    assert!(auth.list_users(&ns, 10).is_empty());
    assert_eq!(auth.sessions.len(), 0);
}

#[test]
fn expired_sessions_are_pruned_and_refresh_expiry_is_explicit() {
    let mut auth = Auth::new();
    let ns = project_namespace("demo-firebase");
    let session = auth.sign_up(&ns, credentials("secret123")).unwrap();
    let (token, refresh) = (session.text("idToken"), session.text("refreshToken"));
    for key in [&token, &refresh] {
        let mut known = auth.sessions.remove(key).unwrap();
        known.expires_at = 0;
        auth.sessions.insert(key, known);
    }
    assert_eq!(auth.session_user(&ns, &token, unix_now()).err().unwrap(), "TOKEN_EXPIRED");
    assert_eq!(
        auth.refresh_token(Some("refresh_token"), Some(&refresh)).unwrap_err(),
        "INVALID_REFRESH_TOKEN"
    );
    assert_eq!(auth.sessions.len(), 0);
}

#[test]
fn account_requests_are_refused_for_a_reason() {
    let mut auth = Auth::new();
    let ns = project_namespace("demo-test");
    assert_eq!(
        auth.create_account(&ns, write_request("a", "no address")).unwrap_err(),
        "INVALID_EMAIL"
    );
    assert_eq!(
        auth.create_account(&ns, write_request("", "a@b")).unwrap_err(),
        "INVALID_LOCAL_ID"
    );
    assert_eq!(
        auth.create_account(&ns, credentials("short")).unwrap_err(),
        "WEAK_PASSWORD : Password should be at least 6 characters"
    );
    let mut first = write_request("a", "a@b");
    first.phone_number = Some("+1".into());
    auth.create_account(&ns, first).unwrap();
    assert_eq!(
        auth.create_account(&ns, write_request("a", "c@d")).unwrap_err(),
        "DUPLICATE_LOCAL_ID"
    );
    let mut second = write_request("b", "c@d");
    second.phone_number = Some("+1".into());
    assert_eq!(auth.create_account(&ns, second).unwrap_err(), "PHONE_NUMBER_EXISTS");
    assert_eq!(
        auth.update_account(&ns, WriteAccountRequest::none()).unwrap_err(),
        "MISSING_LOCAL_ID"
    );
    assert_eq!(
        auth.update_account(&ns, write_request("z", "z@z")).unwrap_err(),
        "USER_NOT_FOUND"
    );
    assert_eq!(
        auth.delete_account(&ns, None, "z".into(), 0).unwrap_err(),
        "USER_NOT_FOUND"
    );
    let mut open = WriteAccountRequest::none();
    open.email = Some("e@f".into());
    assert_eq!(auth.sign_up(&ns, open).unwrap_err(), "MISSING_PASSWORD");
    assert_eq!(auth.sign_in(&ns, None, None).unwrap_err(), "MISSING_EMAIL");
    assert_eq!(auth.sign_in(&ns, Some("e@f".into()), None).unwrap_err(), "MISSING_PASSWORD");
    assert_eq!(
        auth.sign_in(&ns, Some("e@f".into()), Some("x".into())).unwrap_err(),
        "EMAIL_NOT_FOUND"
    );
    assert_eq!(auth.refresh_token(None, None).unwrap_err(), "INVALID_GRANT_TYPE");
    assert_eq!(
        auth.refresh_token(Some("refresh_token"), None).unwrap_err(),
        "MISSING_REFRESH_TOKEN"
    );
    assert_eq!(
        auth_error("X").get("error").unwrap().text("message"),
        "X"
    );
}

#[test]
fn disabled_users_cannot_sign_in() {
    let mut auth = Auth::new();
    let ns = project_namespace("demo-test");
    let session = auth.sign_up(&ns, credentials("secret123")).unwrap();
    let mut request = WriteAccountRequest::none();
    request.local_id = Some(session.text("localId"));
    request.disable_user = Some(true);
    auth.update_account(&ns, request).unwrap();
    assert_eq!(sign_in(&mut auth, &ns, "secret123").unwrap_err(), "USER_DISABLED");
    assert_eq!(
        auth.session_user(&ns, &session.text("idToken"), unix_now()).err().unwrap(),
        "USER_DISABLED"
    );
}

#[test]
fn lookups_ignore_the_case_of_addresses() {
    let mut auth = Auth::new();
    let ns = project_namespace("demo-test");
    auth.create_account(&ns, write_request("a", "Ä@Example.test")).unwrap();
    let mut request = by_id("");
    request.local_id = Vec::new();
    request.email = vec!["ä@EXAMPLE.test".into()];
    let found = auth.lookup_accounts(&ns, request, 0).unwrap();
    assert_eq!(found.items("users").unwrap().len(), 1);
    let mut request = by_id("");
    request.local_id = Vec::new();
    request.federated_user_id = vec![("google.com".into(), "7".into())];
    let found = auth.lookup_accounts(&ns, request, 0).unwrap();
    assert!(found.items("users").unwrap().is_empty());
}

#[test]
fn attributes_and_providers_are_deleted() {
    let mut auth = Auth::new();
    let ns = project_namespace("demo-test");
    let mut request = credentials("secret123");
    request.local_id = Some("a".into());
    request.display_name = Some("name".into());
    let created = auth.create_account(&ns, request).unwrap();
    assert_eq!(created.items("providerUserInfo").unwrap()[0].text("providerId"), "password");
    let mut request = WriteAccountRequest::none();
    request.local_id = Some("a".into());
    request.delete_attribute = vec!["EMAIL".into(), "DISPLAY_NAME".into()];
    request.delete_provider = vec!["password".into()];
    let updated = auth.update_account(&ns, request).unwrap();
    assert!(updated.get("email").is_none());
    assert!(updated.get("displayName").is_none());
    assert!(updated.items("providerUserInfo").unwrap().is_empty());
    assert_eq!(auth.query_accounts(&ns, None, Some(1)).items("userInfo").unwrap().len(), 1);
    assert!(now_millis().parse::<u64>().is_ok());
}

#[test]
fn custom_claims_do_not_replace_standard_ones() {
    let mut auth = Auth::new();
    let ns = project_namespace("demo-test");
    let mut request = credentials("secret123");
    request.custom_attributes = Some("{\"role\":\"admin\",\"sub\":\"other\"}".into());
    auth.create_account(&ns, request).unwrap();
    let session = sign_in(&mut auth, &ns, "secret123").unwrap();
    let claims = read_claims(&session.text("idToken")).unwrap();
    assert_eq!(claims.text("role"), "admin");
    assert_eq!(claims.text("sub"), session.text("localId"));
}
