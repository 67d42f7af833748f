use node_discover::args::ParsedArgs;
use node_discover::errors::DiscoverError;
use node_discover::providers::aws::{
    reservation_addrs, AWSProvider, AddrType, Instance, NetworkInterface, Reservation,
};
use node_discover::providers::Provider;
use node_discover::{select_provider, Discovery};

fn aws(args: &str) -> Result<AWSProvider, DiscoverError> {
    AWSProvider::try_from(ParsedArgs::try_from(args.to_string())?)
}

fn instance(private: Option<&str>, public: Option<&str>, v6: Vec<Vec<Option<&str>>>) -> Instance {
    Instance {
        private_ip_address: private.map(String::from),
        public_ip_address: public.map(String::from),
        network_interfaces: v6
            .into_iter()
            .map(|addrs| NetworkInterface {
                ipv6_addresses: addrs.into_iter().map(|a| a.map(String::from)).collect(),
            })
            .collect(),
    }
}

#[test]
fn aws_addr_type_defaults_to_private_v4() {
    let p = aws("provider=aws tag_key=Name tag_value=cool").unwrap();
    assert_eq!(*p.addr_type(), AddrType::PrivateV4);
}

#[test]
fn aws_region_absent_means_ambient() {
    let p = aws("provider=aws tag_key=Name tag_value=cool").unwrap();
    assert_eq!(p.region(), None);
    let p = aws("provider=aws tag_key=Name tag_value=cool region=us-east-2").unwrap();
    assert_eq!(p.region(), Some(&"us-east-2".to_string()));
}

#[test]
fn aws_rejects_unknown_addr_type() {
    let err = aws("provider=aws tag_key=Name tag_value=cool addr_type=private_v6").unwrap_err();
    assert_eq!(
        err,
        DiscoverError::MalformedArgument(
            "addr_type=private_v6".to_string(),
            "Invalid addr_type".to_string()
        )
    );
}

#[test]
fn aws_accepts_each_addr_type() {
    let p = aws("provider=aws tag_key=k tag_value=v addr_type=public_v4").unwrap();
    assert_eq!(*p.addr_type(), AddrType::PublicV4);
    let p = aws("provider=aws tag_key=k tag_value=v addr_type=public_v6").unwrap();
    assert_eq!(*p.addr_type(), AddrType::PublicV6);
    assert_eq!(
        AddrType::try_from("private_v4".to_string()),
        Ok(AddrType::PrivateV4)
    );
}

#[test]
fn aws_rejects_unexpected_key() {
    let err = aws("provider=aws tag_keys=Name tag_value=cool").unwrap_err();
    assert_eq!(err, DiscoverError::UnexpectedArgument("tag_keys".to_string()));
    let err = aws("provider=aws tag_key=k tag_value=v tag_name=x").unwrap_err();
    assert_eq!(err, DiscoverError::UnexpectedArgument("tag_name".to_string()));
}

#[test]
fn aws_rejects_unknown_region() {
    let err = aws("provider=aws tag_key=k tag_value=v region=mars-1").unwrap_err();
    assert_eq!(
        err,
        DiscoverError::MalformedArgument(
            "region=mars-1".to_string(),
            "The value is not a valid AWS Region".to_string()
        )
    );
}

#[test]
fn aws_requires_tag_key_and_tag_value() {
    let err = aws("provider=aws tag_value=v").unwrap_err();
    assert_eq!(err, DiscoverError::MissingArgument("tag_key".to_string()));
    let err = aws("provider=aws tag_key=k").unwrap_err();
    assert_eq!(err, DiscoverError::MissingArgument("tag_value".to_string()));
}

#[test]
fn aws_end_to_end_configuration_and_query() {
    let input = "provider=aws region=eu-west-1 tag_key=Name tag_value=cool addr_type=private_v4";
    let p = match select_provider(input.to_string(), None).unwrap() {
        Discovery::Aws(p) => p,
        Discovery::DigitalOcean(_) => panic!("expected the AWS provider"),
    };
    assert_eq!(p.region(), Some(&"eu-west-1".to_string()));
    assert_eq!(p.tag_key(), "Name");
    assert_eq!(p.tag_value(), "cool");
    assert_eq!(*p.addr_type(), AddrType::PrivateV4);

    let req = p.instances_request();
    let filters = req.filters.unwrap();
    assert_eq!(filters.len(), 2);
    assert_eq!(filters[0].name.as_deref(), Some("tag:Name"));
    assert_eq!(filters[0].values, Some(vec!["cool".to_string()]));
    assert_eq!(filters[1].name.as_deref(), Some("instance-state-name"));
    assert_eq!(filters[1].values, Some(vec!["running".to_string()]));
    assert_eq!(req.instance_ids, None);
    assert_eq!(req.next_token, None);
}

#[test]
fn aws_instance_without_private_ip_contributes_nothing() {
    let rs = vec![Reservation {
        instances: vec![instance(None, Some("3.3.3.3"), vec![])],
    }];
    assert!(reservation_addrs(&rs, AddrType::PrivateV4).is_empty());
    assert_eq!(
        reservation_addrs(&rs, AddrType::PublicV4),
        vec!["3.3.3.3".to_string()]
    );
}

#[test]
fn aws_ipv6_from_every_interface() {
    let rs = vec![Reservation {
        instances: vec![instance(
            Some("10.0.0.1"),
            None,
            vec![vec![Some("2001:db8::1")], vec![Some("2001:db8::2")]],
        )],
    }];
    assert_eq!(
        reservation_addrs(&rs, AddrType::PublicV6),
        vec!["2001:db8::1".to_string(), "2001:db8::2".to_string()]
    );
}

#[test]
fn aws_addresses_keep_inventory_order() {
    let rs = vec![
        Reservation {
            instances: vec![
                instance(Some("10.0.0.1"), None, vec![]),
                instance(None, None, vec![vec![None, Some("::1")]]),
            ],
        },
        Reservation { instances: vec![] },
        Reservation {
            instances: vec![instance(Some("10.0.0.2"), None, vec![vec![]])],
        },
    ];
    let p = aws("provider=aws tag_key=k tag_value=v").unwrap();
    assert_eq!(
        p.addrs(&rs),
        vec!["10.0.0.1".to_string(), "10.0.0.2".to_string()]
    );
    assert_eq!(reservation_addrs(&rs, AddrType::PublicV6), vec!["::1".to_string()]);
}

#[test]
fn aws_help_names_the_keys() {
    let h = AWSProvider::help();
    assert!(h.contains("tag_key"));
    assert!(h.contains("addr_type"));
}
