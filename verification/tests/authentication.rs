use boardswarm::authentication::{
    claim_matches, claims_to_roles, ClaimScalar, ClaimValue, Claims, Number, Role, RoleLayer,
    RoleMatch, RoleVerifier, Roles, Scalar,
};
use boardswarm::registry::Verifier;
use std::sync::Arc;

fn claims(text: &str) -> Claims {
    Claims { values: serde_json::from_str(text).unwrap() }
}

fn number(n: &serde_yaml::Number) -> Number {
    Number {
        unsigned: n.as_u64(),
        signed: n.as_i64(),
        bits: n.as_f64().map(f64::to_bits),
    }
}

fn scalar(v: &serde_yaml::Value) -> Scalar {
    match v {
        serde_yaml::Value::Bool(b) => Scalar::Bool(*b),
        serde_yaml::Value::Number(n) => Scalar::Number(number(n)),
        serde_yaml::Value::String(s) => Scalar::Text(s.clone()),
        _ => panic!("no scalar"),
    }
}

fn roles(text: &str) -> Vec<Role> {
    let value: serde_yaml::Value = serde_yaml::from_str(text).unwrap();
    let list = value.as_sequence().unwrap();
    list.iter()
        .map(|role| Role {
            role: role["role"].as_str().unwrap().to_string(),
            matches: role["matches"]
                .as_sequence()
                .unwrap()
                .iter()
                .map(|m| RoleMatch {
                    identifier: m["identifier"].as_str().unwrap().to_string(),
                    match_: m["match"]
                        .as_mapping()
                        .unwrap()
                        .iter()
                        .map(|(k, v)| (k.as_str().unwrap().to_string(), scalar(v)))
                        .collect(),
                })
                .collect(),
        })
        .collect()
}

#[test]
fn simple_role() {
    let claims = claims(r#"{ "user": "boardswarm" }"#);
    let config = roles(
        r#"
          - role: test
            matches:
              - identifier: auth
                match:
                  "/user": "boardswarm"
        "#,
    );
    let roles = claims_to_roles(&claims, &config);
    assert_eq!(roles.roles.as_slice(), &["test"])
}

#[test]
fn role_u64_num() {
    let claims = claims(r#"{ "badgers": 128 }"#);
    let config = roles(
        r#"
          - role: test
            matches:
              - identifier: auth
                match:
                  "/badgers": 128
        "#,
    );
    let roles = claims_to_roles(&claims, &config);
    assert_eq!(roles.roles.as_slice(), &["test"])
}

#[test]
fn role_i64_num() {
    let claims = claims(r#"{ "badgers": -128 }"#);
    let config = roles(
        r#"
          - role: test
            matches:
              - identifier: auth
                match:
                  "/badgers": -128
        "#,
    );
    let roles = claims_to_roles(&claims, &config);
    assert_eq!(roles.roles.as_slice(), &["test"])
}

#[test]
fn role_f64_num() {
    let claims = claims(r#"{ "badgers": -128.3 }"#);
    let config = roles(
        r#"
          - role: test
            matches:
              - identifier: auth
                match:
                  "/badgers": -128.3
        "#,
    );
    println!("{:?}", config);
    let roles = claims_to_roles(&claims, &config);
    assert_eq!(roles.roles.as_slice(), &["test"])
}

#[test]
fn role_num_notmatching() {
    let claims = claims(r#"{ "badgers": 128 }"#);
    let config = roles(
        r#"
          - role: test
            matches:
              - identifier: auth
                match:
                  "/badgers": -128.3
        "#,
    );
    let roles = claims_to_roles(&claims, &config);
    assert!(roles.roles.is_empty())
}

#[test]
fn role_bool() {
    let claims = claims(r#"{ "admin": true }"#);
    let config = roles(
        r#"
          - role: test
            matches:
              - identifier: auth
                match:
                  "/admin": true
        "#,
    );
    let roles = claims_to_roles(&claims, &config);
    assert_eq!(*roles.roles, &["test"])
}

#[test]
fn role_bool_notmatching() {
    let claims = claims(r#"{ "admin": true }"#);
    let config = roles(
        r#"
          - role: test
            matches:
              - identifier: auth
                match:
                  "/admin": false
        "#,
    );
    let roles = claims_to_roles(&claims, &config);
    assert!(roles.roles.is_empty());
}

#[test]
fn role_one_in_array() {
    let claims = claims(r#" { "groups": [ "a", "b" ] } "#);
    let config = roles(
        r#"
          - role: match-a-group
            matches:
              - identifier: auth
                match:
                  "/groups": "a"
        "#,
    );
    let roles = claims_to_roles(&claims, &config);
    assert_eq!(roles.roles.as_slice(), &["match-a-group"])
}

#[test]
fn multiple_roles() {
    let claims = claims(
        r#"
        {
          "user": "boardswarm",
          "groups": [ "a", "b" ]
        }
            "#,
    );
    let config = roles(
        r#"
          - role: match-user
            matches:
              - identifier: auth
                match:
                  "/user": "boardswarm"
          - role: match-a-group
            matches:
              - identifier: auth
                match:
                  "/groups": "a"
          - role: nomatch
            matches:
              - identifier: auth
                match:
                  "/groups": "nope"
        "#,
    );
    let roles = claims_to_roles(&claims, &config);
    assert_eq!(roles.roles.as_slice(), &["match-user", "match-a-group"])
}

#[test]
fn claims_are_found_by_pointers() {
    let claims = claims(r#"{ "a": { "b": [1, "x", null] }, "c": {} }"#);
    match claims.claim("/a/b") {
        Some(ClaimValue::List(list)) => {
            assert_eq!(list.len(), 3);
            assert!(matches!(&list[1], ClaimScalar::Text(t) if t == "x"));
            assert!(matches!(&list[2], ClaimScalar::Other));
        }
        _ => panic!("a list was expected"),
    }
    assert!(matches!(claims.claim("/a/b/1"), Some(ClaimValue::One(ClaimScalar::Text(_)))));
    assert!(matches!(claims.claim("/c"), Some(ClaimValue::One(ClaimScalar::Other))));
    assert!(claims.claim("/d").is_none());
    assert!(claims.claim("a").is_none());
    assert!(claims.claim("/a/b/01").is_none());
    assert!(claims.claim("/a/b/3").is_none());
    assert!(matches!(claims.claim(""), Some(ClaimValue::One(ClaimScalar::Other))));
}

#[test]
fn pointers_escape_slashes_and_tildes() {
    let claims = claims(r#"{ "a/b": true, "c~d": false, "~1": "x", "": { "": 1 } }"#);
    assert!(matches!(claims.claim("/a~1b"), Some(ClaimValue::One(ClaimScalar::Bool(true)))));
    assert!(matches!(claims.claim("/c~0d"), Some(ClaimValue::One(ClaimScalar::Bool(false)))));
    assert!(matches!(claims.claim("/~01"), Some(ClaimValue::One(ClaimScalar::Text(_)))));
    assert!(matches!(claims.claim("//"), Some(ClaimValue::One(ClaimScalar::Number(_)))));
}

#[test]
fn a_list_matches_by_one_of_its_values() {
    let list = ClaimValue::List(vec![
        ClaimScalar::Bool(false),
        ClaimScalar::Text("x".to_string()),
    ]);
    assert!(claim_matches(&list, &Scalar::Text("x".to_string())));
    assert!(claim_matches(&list, &Scalar::Bool(false)));
    assert!(!claim_matches(&list, &Scalar::Bool(true)));
    assert!(!claim_matches(&ClaimValue::List(vec![]), &Scalar::Bool(true)));
}

fn with_roles(names: &[&str]) -> Roles {
    Roles { roles: Arc::new(names.iter().map(|n| n.to_string()).collect()) }
}

#[test]
fn roles_decide_what_is_seen() {
    let verifier = RoleVerifier::new(true);
    let acl = vec!["dev".to_string(), "ops".to_string()];
    assert!(verifier.verify(&with_roles(&["ops"]), &acl));
    assert!(!verifier.verify(&with_roles(&["guest"]), &acl));
    assert!(!verifier.verify(&with_roles(&[]), &vec![]));
    let open = RoleVerifier::new(false);
    assert!(open.verify(&with_roles(&[]), &vec![]));
    assert!(!open.verify(&with_roles(&[]), &acl));
}

#[test]
fn requests_get_the_roles_of_their_claims() {
    let layer = RoleLayer::new(roles(
        r#"
          - role: test
            matches:
              - identifier: auth
                match:
                  "/user": "boardswarm"
        "#,
    ));
    let service = layer.layer("inner");
    assert_eq!(service.inner, "inner");
    let with = claims(r#"{ "user": "boardswarm" }"#);
    assert_eq!(service.roles_for(Some(&with)).unwrap().roles.as_slice(), &["test"]);
    assert!(service.roles_for(None).is_none());
}
