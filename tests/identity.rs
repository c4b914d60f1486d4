use integral::accounts::{check_signup, login, signup_password_hash, Login, Signup};
use integral::board::EngineError;
use integral::identity::{authenticate, issue_claims, issue_token, Token};
use integral::records::User;

const SECRET: &str = "test-signing-secret";

fn s(x: &str) -> String {
    x.to_string()
}

fn user(admin: bool, enabled: bool, password_hash: String) -> User {
    User {
        id: s("u-17"),
        email: s("ann@example.com"),
        display_name: s("Ann"),
        phone: None,
        password: password_hash,
        created_at: 0,
        admin,
        enabled,
    }
}

#[test]
fn issued_claims_are_exact() {
    let c = issue_claims(&user(true, true, s("")), 1_700_000_000).unwrap();
    let expect: Vec<(String, String)> = vec![
        (s("iss"), s("integral")),
        (s("sub"), s("u-17")),
        (s("iat"), s("1700000000")),
        (s("exp"), s("1700604800")),
        (s("dn"), s("Ann")),
        (s("email"), s("ann@example.com")),
        (s("admin"), s("true")),
    ];
    assert_eq!(c, expect);
    assert!(issue_claims(&user(false, true, s("")), i64::MAX - 10).is_none());
    let neg = issue_claims(&user(false, true, s("")), -5).unwrap();
    assert_eq!(neg[2].1, "-5");
    assert_eq!(neg[6].1, "false");
}

#[test]
fn issued_token_authenticates_while_current() {
    let t = issue_token(&user(true, true, s("")), SECRET, 1000).unwrap();
    assert!(t.contains('.'));
    let tok = authenticate(&t, SECRET, 2000).unwrap();
    assert_eq!(tok.iss, "integral");
    assert_eq!(tok.sub, "u-17");
    assert_eq!(tok.iat, 1000);
    assert_eq!(tok.exp, 1000 + 604800);
    assert_eq!(tok.dn, "Ann");
    assert_eq!(tok.email, "ann@example.com");
    assert!(tok.admin);
}

#[test]
fn token_outside_its_time_or_key_is_refused() {
    let t = issue_token(&user(false, true, s("")), SECRET, 1000).unwrap();
    assert_eq!(authenticate(&t, SECRET, 999).unwrap_err(), EngineError::Unauthorized);
    assert_eq!(
        authenticate(&t, SECRET, 1000 + 604800 + 1).unwrap_err(),
        EngineError::Unauthorized
    );
    assert!(authenticate(&t, SECRET, 1000 + 604800).is_ok());
    assert_eq!(authenticate(&t, "other-secret", 2000).unwrap_err(), EngineError::Unauthorized);
    assert_eq!(authenticate("not a token", SECRET, 2000).unwrap_err(), EngineError::Unauthorized);
}

#[test]
fn claims_are_read_and_checked() {
    let mut c: Vec<(String, String)> = vec![
        (s("admin"), s("false")),
        (s("dn"), s("Bo")),
        (s("email"), s("bo@example.com")),
        (s("exp"), s("+20")),
        (s("iat"), s("-3")),
        (s("iss"), s("integral")),
        (s("sub"), s("u9")),
    ];
    let t = Token::from_claims(&c).unwrap();
    assert_eq!(t.iat, -3);
    assert_eq!(t.exp, 20);
    assert!(!t.admin);
    assert!(t.is_current(0));
    assert!(!t.is_current(21));
    assert!(!t.is_current(-4));
    c[0].1 = s("yes");
    assert!(Token::from_claims(&c).is_none());
    c[0].1 = s("true");
    c[3].1 = s("12x");
    assert!(Token::from_claims(&c).is_none());
    c[3].1 = s("9223372036854775808");
    assert!(Token::from_claims(&c).is_none());
    c[3].1 = s("5");
    c.remove(1);
    assert!(Token::from_claims(&c).is_none());
}

#[test]
fn signup_checks() {
    let good = Signup { email: s("a@b.c"), password: s("twelve chars"), display_name: s("A") };
    let short = Signup { email: s("a@b.c"), password: s("eleven char"), display_name: s("A") };
    assert!(check_signup(&good, true).is_ok());
    assert_eq!(check_signup(&good, false).unwrap_err(), EngineError::Invalid);
    assert_eq!(check_signup(&short, true).unwrap_err(), EngineError::Invalid);
    let hash = signup_password_hash(&good, true, 4).unwrap();
    assert!(bcrypt::verify("twelve chars", &hash).unwrap());
    assert_eq!(signup_password_hash(&short, true, 4).unwrap_err(), EngineError::Invalid);
}

#[test]
fn login_checks_password_and_enabled_flag() {
    let hash = bcrypt::hash("correct horse battery", 4).unwrap();
    let ok = Login { email: s("ann@example.com"), password: s("correct horse battery") };
    let bad = Login { email: s("ann@example.com"), password: s("wrong password!!") };
    let token = login(&user(false, true, hash.clone()), &ok, SECRET, 500).unwrap();
    let t = authenticate(&token, SECRET, 600).unwrap();
    assert_eq!(t.sub, "u-17");
    assert_eq!(
        login(&user(false, true, hash.clone()), &bad, SECRET, 500).unwrap_err(),
        EngineError::Unauthorized
    );
    assert_eq!(
        login(&user(false, false, hash), &ok, SECRET, 500).unwrap_err(),
        EngineError::Unauthorized
    );
}
