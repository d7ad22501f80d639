//! Which providers are behind their latest version.

use crate::upgrade_provider::{outdated_of, version_texts, Providers};
use crate::version::Version;
use vstd::prelude::*;
use vstd::string::*;

verus! {

/// The address at which the registry tells of `provider`.
pub fn registry_url(provider: &str) -> (r: String)
    ensures
        r@ == "https://registry.terraform.io/v1/providers/"@ + provider@,
{
    let mut url = String::from_str("https://registry.terraform.io/v1/providers/");
    url.append(provider);
    url
}

/// The providers that are pinned to a version other than their latest,
/// each with those versions only and the lockfiles that pin them. `latest`
/// gives the latest version of each provider, in the order of `providers`.
/// A provider that is up to date everywhere is left out.
pub fn outdated_providers(providers: &Providers, latest: &Vec<Version>) -> (r: Providers)
    requires
        latest.len() == providers@.len(),
    ensures
        r@ == outdated_of(providers@, version_texts(latest@)),
{
    providers.outdated(latest)
}

} // verus!
