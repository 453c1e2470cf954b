//! The credential broker's compute: turning the raw fields of an
//! assume-role response into scoped credentials with the fixed
//! validity window. The network call itself lives in the surrounding
//! application; this module decides exactly when that call's response
//! is acceptable.

use vstd::prelude::*;

verus! {

/// How long scoped credentials stay valid, in seconds.
pub const CREDENTIAL_VALIDITY_SECS: u64 = 1800;

/// Temporary, role-scoped credentials for one account.
#[derive(Debug)]
pub struct ScopedCredentials {
    pub access_key_id: String,
    pub secret_access_key: String,
    pub session_token: String,
    /// Seconds since the epoch at which the credentials expire.
    pub expires_at: u64,
}

/// Why an assume-role response could not be turned into credentials.
#[derive(Clone, Copy, PartialEq, Eq, Structural, Debug)]
pub enum CredentialError {
    MissingAccessKeyId,
    MissingSecretAccessKey,
    MissingSessionToken,
}

/// The fixed role session name used for every assume-role call.
pub fn session_name() -> (r: &'static str)
    ensures
        r@ == "dev-cli"@,
{
    "dev-cli"
}

/// Builds scoped credentials from the raw optional fields of an
/// assume-role response. Succeeds exactly when all three fields are
/// present; a missing field is reported as the structured error for
/// the first field found missing, never as a crash.
pub fn build_scoped_credentials(
    access_key_id: Option<String>,
    secret_access_key: Option<String>,
    session_token: Option<String>,
    issued_at: u64,
) -> (r: Result<ScopedCredentials, CredentialError>)
    requires
        issued_at + CREDENTIAL_VALIDITY_SECS <= u64::MAX,
    ensures
        (r is Ok) == (access_key_id is Some && secret_access_key is Some && session_token is Some),
        r matches Ok(c) ==> c.access_key_id@ == access_key_id.unwrap()@
            && c.secret_access_key@ == secret_access_key.unwrap()@ && c.session_token@
            == session_token.unwrap()@ && c.expires_at == issued_at + CREDENTIAL_VALIDITY_SECS,
        r matches Err(e) ==> (e == CredentialError::MissingAccessKeyId <==> access_key_id is None),
        r matches Err(e) ==> (e == CredentialError::MissingSecretAccessKey <==> (access_key_id
            is Some && secret_access_key is None)),
        r matches Err(e) ==> (e == CredentialError::MissingSessionToken <==> (access_key_id is Some
            && secret_access_key is Some && session_token is None)),
{
    let access = match access_key_id {
        Some(a) => a,
        None => {
            return Err(CredentialError::MissingAccessKeyId);
        },
    };
    let secret = match secret_access_key {
        Some(sk) => sk,
        None => {
            return Err(CredentialError::MissingSecretAccessKey);
        },
    };
    let token = match session_token {
        Some(t) => t,
        None => {
            return Err(CredentialError::MissingSessionToken);
        },
    };
    Ok(
        ScopedCredentials {
            access_key_id: access,
            secret_access_key: secret,
            session_token: token,
            expires_at: issued_at + CREDENTIAL_VALIDITY_SECS,
        },
    )
}

} // verus!
