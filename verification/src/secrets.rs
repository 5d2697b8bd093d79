//! Which secret keys may be kept in the OS keychain, and the keychain account
//! name of a profile's secret.
use vstd::prelude::*;
use vstd::string::StringExecFns;
use crate::text::{chars_eq, chars_of, trim};

verus! {

/// The keychain service name.
pub open spec fn service_name() -> Seq<char> {
    "com.lihiko.traderobot"@
}

/// The keys that may be stored.
pub open spec fn allowed_secret_key(key: Seq<char>) -> bool {
    ||| key == "futu.trade_password"@
    ||| key == "futu.api_token"@
    ||| key == "opend.tls_client_key_passphrase"@
    ||| key == "ai.openai_api_key"@
    ||| key == "ai.deepseek_api_key"@
    ||| key == "ai.qwen_api_key"@
    ||| key == "ai.grok_api_key"@
    ||| key == "ai.ollama_api_key"@
}

/// Outcome of key validation: a blank key, then a key outside the allowed list.
pub open spec fn spec_validate_key(key: Seq<char>) -> Result<(), Seq<char>> {
    if trim(key).len() == 0 {
        Err("secret key is empty"@)
    } else if !allowed_secret_key(key) {
        Err("secret key not allowed: "@ + key)
    } else {
        Ok(())
    }
}

/// The keychain service name.
pub fn service() -> (s: String)
    ensures
        s@ == service_name(),
{
    String::from_str("com.lihiko.traderobot")
}

/// Accepts only non-blank keys from the allowed list.
pub fn validate_key(key: &str) -> (r: Result<(), String>)
    ensures
        match (r, spec_validate_key(key@)) {
            (Ok(()), Ok(())) => true,
            (Err(e), Err(se)) => e@ == se,
            _ => false,
        },
{
    let k = chars_of(key);
    let t = crate::text::trim_chars(&k);
    if t.len() == 0 {
        return Err(String::from_str("secret key is empty"));
    }
    let allowed = [
        "futu.trade_password",
        "futu.api_token",
        "opend.tls_client_key_passphrase",
        "ai.openai_api_key",
        "ai.deepseek_api_key",
        "ai.qwen_api_key",
        "ai.grok_api_key",
        "ai.ollama_api_key",
    ];
    let mut found = false;
    let mut i: usize = 0;
    while i < allowed.len()
        invariant
            i <= allowed@.len(),
            allowed@.len() == 8,
            allowed@[0]@ == "futu.trade_password"@,
            allowed@[1]@ == "futu.api_token"@,
            allowed@[2]@ == "opend.tls_client_key_passphrase"@,
            allowed@[3]@ == "ai.openai_api_key"@,
            allowed@[4]@ == "ai.deepseek_api_key"@,
            allowed@[5]@ == "ai.qwen_api_key"@,
            allowed@[6]@ == "ai.grok_api_key"@,
            allowed@[7]@ == "ai.ollama_api_key"@,
            k@ == key@,
            found <==> exists|j: int| 0 <= j < i && allowed@[j]@ == key@,
        decreases allowed@.len() - i,
    {
        if chars_eq(&k, &chars_of(allowed[i])) {
            found = true;
        }
        i += 1;
    }
    if !found {
        let mut e = String::from_str("secret key not allowed: ");
        e.append(key);
        return Err(e);
    }
    Ok(())
}

/// The keychain account of a profile's secret: `profile:key`.
pub fn username(profile: &str, key: &str) -> (s: String)
    ensures
        s@ == profile@ + ":"@ + key@,
{
    let mut s = String::from_str(profile);
    s.append(":");
    s.append(key);
    s
}

/// A secret value must not be empty (it is stored as given, spaces included).
pub fn check_secret_value(value: &str) -> (r: Result<(), String>)
    ensures
        r is Ok <==> value@.len() > 0,
        r matches Err(e) ==> e@ == "secret value is empty"@,
{
    if value.unicode_len() == 0 {
        return Err(String::from_str("secret value is empty"));
    }
    Ok(())
}

} // verus!
