use vstd::prelude::*;

verus! {

/// Where an API client takes its credentials from.
pub enum CredentialSource {
    /// A key pair given on the command line.
    Static { access_key: String, secret_key: String },
    /// A named profile of the local credentials file.
    Profile(String),
    /// The platform's usual chain: environment, credentials file, instance role.
    Ambient,
}

/// Picks the credentials: a complete key pair first, then a named profile, else
/// the ambient chain.
pub fn choose_credentials(
    access_key: Option<String>,
    secret_key: Option<String>,
    profile: Option<String>,
) -> (r: CredentialSource)
    ensures
        match (access_key, secret_key, profile) {
            (Some(a), Some(s), _) => r == CredentialSource::Static { access_key: a, secret_key: s },
            (_, _, Some(p)) => r == CredentialSource::Profile(p),
            _ => r == CredentialSource::Ambient,
        },
{
    match (access_key, secret_key, profile) {
        (Some(a), Some(s), _) => CredentialSource::Static { access_key: a, secret_key: s },
        (_, _, Some(p)) => CredentialSource::Profile(p),
        _ => CredentialSource::Ambient,
    }
}

} // verus!
