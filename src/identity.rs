//! Identity tokens: reading and checking the claims of a signed token, and
//! issuing one for a user.

use vstd::prelude::*;
use std::collections::BTreeMap;
use hmac::{Hmac, Mac};
use jwt::{SignWithKey, VerifyWithKey};
use sha2::Sha256;
use crate::board::EngineError;
use crate::records::User;

verus! {

/// How long an issued token stays valid, in seconds: one week.
pub const TOKEN_LIFETIME: i64 = 604800;

/// The claims of a well-signed token, as (name, value) pairs, or `None` when
/// the token is malformed or its signature does not match the secret.
pub uninterp spec fn jwt_claims(token: Seq<char>, secret: Seq<char>) -> Option<Seq<(Seq<char>, Seq<char>)>>;

/// The signed token for the given claims and secret, or `None` when signing
/// fails.
pub uninterp spec fn jwt_signed(claims: Seq<(Seq<char>, Seq<char>)>, secret: Seq<char>) -> Option<Seq<char>>;

/// The claims as text.
pub open spec fn claims_text(c: Seq<(String, String)>) -> Seq<(Seq<char>, Seq<char>)> {
    c.map_values(|p: (String, String)| (p.0@, p.1@))
}

/// Relies on `hmac`'s `Hmac::<Sha256>::new_from_slice`, which takes a key of
/// any length, and on `jwt`'s `VerifyWithKey` for `&str`: the claims of a
/// token whose HMAC-SHA256 signature matches, read as a map from string to
/// string, depend on the token and the secret alone.
#[verifier::external_body]
fn verify_claims(token: &str, secret: &str) -> (r: Option<Vec<(String, String)>>)
    ensures
        r is None <==> jwt_claims(token@, secret@) is None,
        r is Some ==> claims_text(r.unwrap()@) == jwt_claims(token@, secret@).unwrap(),
{
    let key: Hmac<Sha256> = Hmac::new_from_slice(secret.as_bytes()).ok()?;
    let claims: BTreeMap<String, String> = token.verify_with_key(&key).ok()?;
    Some(claims.into_iter().collect())
}

/// Relies on `hmac`'s `Hmac::<Sha256>::new_from_slice` and on `jwt`'s
/// `SignWithKey` for a map of strings: the token signed with HMAC-SHA256
/// depends on the claims and the secret alone.
#[verifier::external_body]
fn sign_claims(claims: &Vec<(String, String)>, secret: &str) -> (r: Option<String>)
    ensures
        r is None <==> jwt_signed(claims_text(claims@), secret@) is None,
        r is Some ==> r.unwrap()@ == jwt_signed(claims_text(claims@), secret@).unwrap(),
{
    let key: Hmac<Sha256> = Hmac::new_from_slice(secret.as_bytes()).ok()?;
    let map: BTreeMap<&str, &str> = claims.iter().map(|p| (p.0.as_str(), p.1.as_str())).collect();
    map.sign_with_key(&key).ok()
}

pub open spec fn is_digit(c: char) -> bool {
    '0' <= c <= '9'
}

pub open spec fn digit_value(c: char) -> int {
    c as int - '0' as int
}

/// The number that a run of decimal digits spells.
pub open spec fn digits_value(s: Seq<char>) -> int
    decreases s.len(),
{
    if s.len() == 0 {
        0
    } else {
        digits_value(s.drop_last()) * 10 + digit_value(s.last())
    }
}

/// A decimal integer: an optional `+` or `-`, then one or more digits, with
/// a value that fits in an `i64`.
pub open spec fn decimal_i64(s: Seq<char>) -> Option<i64> {
    let signed = s.len() > 0 && (s[0] == '-' || s[0] == '+');
    let body = if signed {
        s.drop_first()
    } else {
        s
    };
    let v = if s.len() > 0 && s[0] == '-' {
        -digits_value(body)
    } else {
        digits_value(body)
    };
    if body.len() > 0 && (forall|i: int| 0 <= i < body.len() ==> is_digit(#[trigger] body[i]))
        && i64::MIN <= v <= i64::MAX {
        Some(v as i64)
    } else {
        None
    }
}

/// Relies on `str::parse::<i64>`, documented to accept an optional sign and
/// then digits only, and to fail on overflow.
#[verifier::external_body]
fn parse_i64(s: &str) -> (r: Option<i64>)
    ensures
        r == decimal_i64(s@),
{
    s.parse::<i64>().ok()
}

/// Relies on `str::parse::<bool>`, documented to accept exactly `true` and
/// `false`.
#[verifier::external_body]
fn parse_bool(s: &str) -> (r: Option<bool>)
    ensures
        r == if s@ == "true"@ {
            Some(true)
        } else if s@ == "false"@ {
            Some(false)
        } else {
            None
        },
{
    s.parse::<bool>().ok()
}

pub open spec fn digit_char(d: int) -> char {
    if d == 0 {
        '0'
    } else if d == 1 {
        '1'
    } else if d == 2 {
        '2'
    } else if d == 3 {
        '3'
    } else if d == 4 {
        '4'
    } else if d == 5 {
        '5'
    } else if d == 6 {
        '6'
    } else if d == 7 {
        '7'
    } else if d == 8 {
        '8'
    } else {
        '9'
    }
}

/// The decimal digits of `n`, without leading zeros.
pub open spec fn digits_of(n: nat) -> Seq<char>
    decreases n,
{
    if n < 10 {
        seq![digit_char(n as int)]
    } else {
        digits_of(n / 10).push(digit_char((n % 10) as int))
    }
}

/// The decimal text of `n`: a `-` for a negative number, then its digits.
pub open spec fn decimal_text(n: int) -> Seq<char> {
    if n < 0 {
        seq!['-'] + digits_of((-n) as nat)
    } else {
        digits_of(n as nat)
    }
}

/// Relies on `i64`'s `to_string`: `Display` for integers writes a `-` for
/// a negative number and then the decimal digits without leading zeros.
#[verifier::external_body]
fn i64_text(n: i64) -> (r: String)
    ensures
        r@ == decimal_text(n as int),
{
    n.to_string()
}

/// The value of the first claim named `name`.
pub open spec fn claim(c: Seq<(Seq<char>, Seq<char>)>, name: Seq<char>) -> Option<Seq<char>>
    decreases c.len(),
{
    if c.len() == 0 {
        None
    } else if c[0].0 == name {
        Some(c[0].1)
    } else {
        claim(c.drop_first(), name)
    }
}

fn find_claim(c: &Vec<(String, String)>, name: &String) -> (r: Option<String>)
    ensures
        r is None <==> claim(claims_text(c@), name@) is None,
        r is Some ==> r.unwrap()@ == claim(claims_text(c@), name@).unwrap(),
{
    let mut i: usize = 0;
    assert(claims_text(c@).subrange(0, c@.len() as int) =~= claims_text(c@));
    while i < c.len()
        invariant
            i <= c@.len(),
            claim(claims_text(c@), name@) == claim(claims_text(c@).subrange(i as int, c@.len() as int), name@),
        decreases c@.len() - i,
    {
        let ghost rest = claims_text(c@).subrange(i as int, c@.len() as int);
        if c[i].0 == *name {
            return Some(c[i].1.clone());
        }
        assert(rest.drop_first() =~= claims_text(c@).subrange(i + 1, c@.len() as int));
        i += 1;
    }
    None
}

/// The claims that an identity token carries.
#[derive(Debug)]
pub struct Token {
    pub iss: String,
    pub sub: String,
    pub iat: i64,
    pub exp: i64,
    pub dn: String,
    pub email: String,
    pub admin: bool,
}

/// The claims `c` hold every field of a token, with `iat` and `exp` decimal
/// integers and `admin` a boolean.
pub open spec fn claims_complete(c: Seq<(Seq<char>, Seq<char>)>) -> bool {
    &&& claim(c, "iss"@) is Some
    &&& claim(c, "sub"@) is Some
    &&& claim(c, "iat"@) is Some && decimal_i64(claim(c, "iat"@).unwrap()) is Some
    &&& claim(c, "exp"@) is Some && decimal_i64(claim(c, "exp"@).unwrap()) is Some
    &&& claim(c, "dn"@) is Some
    &&& claim(c, "email"@) is Some
    &&& claim(c, "admin"@) is Some && (claim(c, "admin"@).unwrap() == "true"@ || claim(c, "admin"@).unwrap()
        == "false"@)
}

impl Token {
    /// The token's fields are those that the claims `c` give.
    pub open spec fn read_from(&self, c: Seq<(Seq<char>, Seq<char>)>) -> bool {
        &&& self.iss@ == claim(c, "iss"@).unwrap()
        &&& self.sub@ == claim(c, "sub"@).unwrap()
        &&& Some(self.iat) == decimal_i64(claim(c, "iat"@).unwrap())
        &&& Some(self.exp) == decimal_i64(claim(c, "exp"@).unwrap())
        &&& self.dn@ == claim(c, "dn"@).unwrap()
        &&& self.email@ == claim(c, "email"@).unwrap()
        &&& self.admin == (claim(c, "admin"@).unwrap() == "true"@)
    }

    /// Reads a token from its claims; `None` when one is missing or
    /// malformed.
    pub fn from_claims(claims: &Vec<(String, String)>) -> (r: Option<Token>)
        ensures
            r is Some <==> claims_complete(claims_text(claims@)),
            r is Some ==> r.unwrap().read_from(claims_text(claims@)),
    {
        let iss = find_claim(claims, &String::from_str("iss"))?;
        let sub = find_claim(claims, &String::from_str("sub"))?;
        let iat = find_claim(claims, &String::from_str("iat"))?;
        let iat = parse_i64(iat.as_str())?;
        let exp = find_claim(claims, &String::from_str("exp"))?;
        let exp = parse_i64(exp.as_str())?;
        let dn = find_claim(claims, &String::from_str("dn"))?;
        let email = find_claim(claims, &String::from_str("email"))?;
        let admin = find_claim(claims, &String::from_str("admin"))?;
        let admin = parse_bool(admin.as_str())?;
        Some(Token { iss, sub, iat, exp, dn, email, admin })
    }

    /// Whether the token is valid at time `now`: issued no later and
    /// expiring no earlier.
    pub fn is_current(&self, now: i64) -> (r: bool)
        ensures
            r == (self.iat <= now && now <= self.exp),
    {
        !(self.iat > now || self.exp < now)
    }
}

/// Checks token `token` against `secret` at time `now`: it must carry a
/// matching signature and every claim, and be current. Any failure gives
/// `Unauthorized`.
pub fn authenticate(token: &str, secret: &str, now: i64) -> (r: Result<Token, EngineError>)
    ensures
        r is Ok <==> ({
            let c = jwt_claims(token@, secret@);
            c is Some && claims_complete(c.unwrap()) && decimal_i64(claim(c.unwrap(), "iat"@).unwrap()).unwrap()
                <= now && now <= decimal_i64(claim(c.unwrap(), "exp"@).unwrap()).unwrap()
        }),
        r is Ok ==> r.unwrap().read_from(jwt_claims(token@, secret@).unwrap()),
        r is Err ==> r == Err::<Token, EngineError>(EngineError::Unauthorized),
{
    let claims = match verify_claims(token, secret) {
        Some(c) => c,
        None => {
            return Err(EngineError::Unauthorized);
        },
    };
    let t = match Token::from_claims(&claims) {
        Some(t) => t,
        None => {
            return Err(EngineError::Unauthorized);
        },
    };
    if !t.is_current(now) {
        return Err(EngineError::Unauthorized);
    }
    Ok(t)
}

/// The claims of a token issued to `user` at `now`: issuer, subject, issue
/// and expiry times, display name, email and admin flag.
pub open spec fn issued_claims(user: User, now: i64) -> Seq<(Seq<char>, Seq<char>)> {
    seq![
        ("iss"@, "integral"@),
        ("sub"@, user.id@),
        ("iat"@, decimal_text(now as int)),
        ("exp"@, decimal_text(now + TOKEN_LIFETIME)),
        ("dn"@, user.display_name@),
        ("email"@, user.email@),
        ("admin"@, if user.admin { "true"@ } else { "false"@ }),
    ]
}

/// The claims of a token issued to `user` at `now`, valid for
/// `TOKEN_LIFETIME` seconds; `None` when the expiry time does not fit in an
/// `i64`.
pub fn issue_claims(user: &User, now: i64) -> (r: Option<Vec<(String, String)>>)
    ensures
        r is None <==> now + TOKEN_LIFETIME > i64::MAX,
        r is Some ==> claims_text(r.unwrap()@) == issued_claims(*user, now),
{
    if now > i64::MAX - TOKEN_LIFETIME {
        return None;
    }
    let mut c: Vec<(String, String)> = Vec::new();
    c.push((String::from_str("iss"), String::from_str("integral")));
    c.push((String::from_str("sub"), user.id.clone()));
    c.push((String::from_str("iat"), i64_text(now)));
    c.push((String::from_str("exp"), i64_text(now + TOKEN_LIFETIME)));
    c.push((String::from_str("dn"), user.display_name.clone()));
    c.push((String::from_str("email"), user.email.clone()));
    let admin = if user.admin {
        String::from_str("true")
    } else {
        String::from_str("false")
    };
    c.push((String::from_str("admin"), admin));
    assert(claims_text(c@) =~= issued_claims(*user, now));
    Some(c)
}

/// Issues a signed token for `user` at `now`; `None` when the expiry time
/// does not fit or signing fails.
pub fn issue_token(user: &User, secret: &str, now: i64) -> (r: Option<String>)
    ensures
        r is Some <==> now + TOKEN_LIFETIME <= i64::MAX && jwt_signed(issued_claims(*user, now), secret@) is Some,
        r is Some ==> r.unwrap()@ == jwt_signed(issued_claims(*user, now), secret@).unwrap(),
{
    let claims = issue_claims(user, now)?;
    sign_claims(&claims, secret)
}

} // verus!
