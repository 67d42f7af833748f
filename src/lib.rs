//! Resolves the IP addresses of the nodes of a cluster from a cloud provider's
//! inventory, driven by a flat `key=value ...` argument string.
//!
//! The library parses and validates the arguments, builds each provider's
//! configuration and inventory query, decides DigitalOcean's pagination and
//! selects addresses out of what a provider returned. Sending the queries is
//! left to the caller, who hands the responses back as plain values.
use vstd::prelude::*;

pub mod args;
pub mod errors;
pub mod providers;

pub use crate::args::SupportedProvider;
pub use crate::errors::DiscoverError;
pub use crate::providers::{aws, digitalocean, Provider};

use crate::args::{opt_view, parse_spec, ParsedArgs};
use crate::errors::DiscoverErrorView;
use crate::providers::aws::{aws_config_spec, AWSProvider, AwsConfigView};
use crate::providers::digitalocean::{do_config_spec, DOProvider, DoConfigView};

verus! {

/// The provider that a request selected, configured.
#[derive(Debug)]
pub enum Discovery {
    Aws(AWSProvider),
    DigitalOcean(DOProvider),
}

/// The model of a [`Discovery`].
pub enum DiscoveryView {
    Aws(AwsConfigView),
    DigitalOcean(DoConfigView),
}

/// The configured provider that the argument string `s` asks for, where
/// `env_token` is the DigitalOcean token that the environment holds, if any.
pub open spec fn discovery_spec(s: Seq<char>, env_token: Option<Seq<char>>) -> Result<
    DiscoveryView,
    DiscoverErrorView,
> {
    match parse_spec(s) {
        Err(e) => Err(e),
        Ok((ps, SupportedProvider::AWS)) => match aws_config_spec(ps) {
            Err(e) => Err(e),
            Ok(c) => Ok(DiscoveryView::Aws(c)),
        },
        Ok((ps, SupportedProvider::DigitalOcean)) => match do_config_spec(ps, env_token) {
            Err(e) => Err(e),
            Ok(c) => Ok(DiscoveryView::DigitalOcean(c)),
        },
    }
}

/// The model of a selection result.
pub open spec fn discovery_view(r: Result<Discovery, DiscoverError>) -> Result<
    DiscoveryView,
    DiscoverErrorView,
> {
    match r {
        Ok(Discovery::Aws(p)) => Ok(DiscoveryView::Aws(p@)),
        Ok(Discovery::DigitalOcean(p)) => Ok(DiscoveryView::DigitalOcean(p@)),
        Err(e) => Err(e@),
    }
}

/// Parses the argument string and configures the provider that it names;
/// `env_token` is the DigitalOcean token that the environment holds, if any.
pub fn select_provider(args: String, env_token: Option<String>) -> (r: Result<
    Discovery,
    DiscoverError,
>)
    ensures
        discovery_view(r) == discovery_spec(args@, opt_view(env_token)),
{
    let parsed = ParsedArgs::try_from(args)?;
    match *parsed.provider() {
        SupportedProvider::AWS => {
            let p = AWSProvider::try_from(parsed)?;
            Ok(Discovery::Aws(p))
        },
        SupportedProvider::DigitalOcean => {
            let p = DOProvider::try_from(parsed, env_token)?;
            Ok(Discovery::DigitalOcean(p))
        },
    }
}

/// The provider whose help a `help` command asks for: the first argument,
/// where it names one exactly; `None` asks for the help of every provider.
pub open spec fn help_topic(args: Seq<String>) -> Option<SupportedProvider> {
    if args.len() > 0 && args[0]@ == "aws"@ {
        Some(SupportedProvider::AWS)
    } else if args.len() > 0 && args[0]@ == "digitalocean"@ {
        Some(SupportedProvider::DigitalOcean)
    } else {
        None
    }
}

/// Which provider's help to show for the arguments of a `help` command.
pub fn get_help(args: &Vec<String>) -> (r: Option<SupportedProvider>)
    ensures
        r == help_topic(args@),
{
    if args.len() == 0 {
        return None;
    }
    let first = &args[0];
    if *first == String::from_str("aws") {
        Some(SupportedProvider::AWS)
    } else if *first == String::from_str("digitalocean") {
        Some(SupportedProvider::DigitalOcean)
    } else {
        None
    }
}

} // verus!
