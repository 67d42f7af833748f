use node_discover::args::ParsedArgs;
use node_discover::errors::DiscoverError;
use node_discover::providers::digitalocean::{
    droplet_addrs, to_decimal, DOProvider, Droplet, DropletPager, DropletRegion, Network,
    Networks, PageStep, PER_PAGE,
};
use node_discover::providers::Provider;
use node_discover::{select_provider, Discovery};

fn digitalocean(args: &str, env: Option<&str>) -> Result<DOProvider, DiscoverError> {
    DOProvider::try_from(
        ParsedArgs::try_from(args.to_string())?,
        env.map(String::from),
    )
}

fn network(ip: &str, variant: &str) -> Network {
    Network {
        ip_address: ip.to_string(),
        netmask: "255.255.0.0".to_string(),
        gateway: "10.0.0.1".to_string(),
        variant: variant.to_string(),
    }
}

fn droplet(id: u64, region: &str, v4: Vec<Network>) -> Droplet {
    Droplet {
        id,
        name: format!("node-{}", id),
        networks: Networks {
            v4,
            v6: vec![network("2001:db8::1", "public")],
        },
        region: DropletRegion {
            slug: region.to_string(),
        },
    }
}

fn page(n: usize) -> Vec<Droplet> {
    (0..n).map(|i| droplet(i as u64, "lon1", vec![])).collect()
}

/// Runs a listing against the given page sizes; returns the pages requested
/// and the droplets gathered.
fn run_listing(sizes: &[usize]) -> (Vec<u64>, usize) {
    let mut pager = DropletPager::new();
    let mut requested = Vec::new();
    loop {
        match pager.next_step() {
            PageStep::Fetch(n) => {
                requested.push(n);
                let size = sizes.get(requested.len() - 1).copied().unwrap_or(0);
                pager.receive(page(size));
            }
            PageStep::Done => break,
        }
    }
    (requested, pager.into_droplets().len())
}

#[test]
fn do_pagination_stops_after_a_short_page() {
    assert_eq!(PER_PAGE, 200);
    let (requested, total) = run_listing(&[200, 200, 73]);
    assert_eq!(requested, vec![1, 2, 3]);
    assert_eq!(total, 473);
}

#[test]
fn do_pagination_exact_multiple_needs_an_empty_page() {
    let (requested, total) = run_listing(&[200, 200, 0]);
    assert_eq!(requested, vec![1, 2, 3]);
    assert_eq!(total, 400);
}

#[test]
fn do_pagination_single_short_page() {
    let (requested, total) = run_listing(&[5]);
    assert_eq!(requested, vec![1]);
    assert_eq!(total, 5);
}

#[test]
fn do_region_filter_excludes_other_regions() {
    let droplets = vec![droplet(1, "ams3", vec![network("10.1.0.1", "private")])];
    let p = digitalocean("provider=digitalocean tag_name=t region=lon1 api_token=x", None).unwrap();
    assert!(p.addrs(&droplets).is_empty());
    let p = digitalocean("provider=digitalocean tag_name=t api_token=x", None).unwrap();
    assert_eq!(p.addrs(&droplets), vec!["10.1.0.1".to_string()]);
}

#[test]
fn do_region_filter_in_a_longer_listing() {
    let droplets = vec![
        droplet(1, "lon1", vec![network("10.1.0.1", "private")]),
        droplet(2, "ams3", vec![network("10.1.0.2", "private")]),
        droplet(3, "lon1", vec![network("10.1.0.3", "private")]),
    ];
    let lon1 = "lon1".to_string();
    assert_eq!(
        droplet_addrs(&droplets, Some(&lon1)),
        vec!["10.1.0.1".to_string(), "10.1.0.3".to_string()]
    );
    assert_eq!(droplet_addrs(&droplets, None).len(), 3);
}

#[test]
fn do_only_private_v4_addresses() {
    let droplets = vec![
        droplet(
            1,
            "lon1",
            vec![network("1.2.3.4", "public"), network("10.1.0.1", "private")],
        ),
        droplet(2, "lon1", vec![network("10.1.0.2", "private")]),
    ];
    let region = "lon1".to_string();
    assert_eq!(
        droplet_addrs(&droplets, Some(&region)),
        vec!["10.1.0.1".to_string(), "10.1.0.2".to_string()]
    );
}

#[test]
fn do_missing_api_token_everywhere() {
    let err = digitalocean("provider=digitalocean tag_name=t", None).unwrap_err();
    assert_eq!(err, DiscoverError::MissingArgument("api_token".to_string()));
}

#[test]
fn do_api_token_from_environment() {
    let p = digitalocean("provider=digitalocean tag_name=t", Some("SECRET-REDACTED")).unwrap();
    assert_eq!(p.api_token(), "SECRET-REDACTED");
    let p = digitalocean("provider=digitalocean tag_name=t api_token=arg", Some("env")).unwrap();
    assert_eq!(p.api_token(), "arg");
}

#[test]
fn do_configuration_values() {
    let p = digitalocean("provider=digitalocean region=lon1 tag_name=cool api_token=tok", None)
        .unwrap();
    assert_eq!(p.tag_name(), "cool");
    assert_eq!(p.region(), Some(&"lon1".to_string()));
    assert_eq!(p.api_token(), "tok");
    let p = digitalocean("provider=digitalocean tag_name=cool api_token=tok", None).unwrap();
    assert_eq!(p.region(), None);
}

#[test]
fn do_rejects_unexpected_and_missing_keys() {
    let err = digitalocean("provider=digitalocean tag_name=t tag_key=k", Some("x")).unwrap_err();
    assert_eq!(err, DiscoverError::UnexpectedArgument("tag_key".to_string()));
    let err = digitalocean("provider=digitalocean region=lon1", Some("x")).unwrap_err();
    assert_eq!(err, DiscoverError::MissingArgument("tag_name".to_string()));
}

#[test]
fn do_request_url_and_authorization() {
    let p = digitalocean("provider=digitalocean tag_name=cool api_token=tok", None).unwrap();
    assert_eq!(
        p.droplets_url(3),
        "https://api.digitalocean.com/v2/droplets?page=3&per_page=200&tag_name=cool"
    );
    assert_eq!(p.authorization(), "Bearer tok");
}

#[test]
fn decimal_notation() {
    assert_eq!(to_decimal(0), "0");
    assert_eq!(to_decimal(7), "7");
    assert_eq!(to_decimal(1234567890), "1234567890");
    assert_eq!(to_decimal(u64::MAX), u64::MAX.to_string());
}

#[test]
fn do_selected_through_dispatcher() {
    match select_provider("provider=digitalocean tag_name=t".to_string(), Some("e".to_string())) {
        Ok(Discovery::DigitalOcean(p)) => assert_eq!(p.api_token(), "e"),
        _ => panic!("expected the DigitalOcean provider"),
    }
    match select_provider("provider=digitalocean tag_name=t".to_string(), None) {
        Err(e) => assert_eq!(e, DiscoverError::MissingArgument("api_token".to_string())),
        Ok(_) => panic!("expected an error"),
    }
}

#[test]
fn do_help_names_the_keys() {
    assert!(DOProvider::help().contains("tag_name"));
}
