use node_discover::args::{ParsedArgs, SupportedProvider};
use node_discover::errors::DiscoverError;
use node_discover::get_help;

#[test]
fn fail_when_provider_is_not_provided() {
    let tag_key = "Name";
    let tag_value = "fsajfopja";
    let addr_type = "private_v4";

    let args = format!(
        "region=eu-west-1 tag_key={} tag_value={} addr_type={}",
        tag_key, tag_value, addr_type
    );

    let res = ParsedArgs::try_from(args);
    assert!(res.is_err());
    assert_eq!(
        res.unwrap_err(),
        DiscoverError::MissingArgument("provider".to_string())
    );
}

#[test]
fn fail_on_duplicate_argument() {
    let inputs = vec!["provider=aws provider=do", "provider=aws provider=aws"];

    for input in inputs {
        let res = ParsedArgs::try_from(input.to_string());
        assert!(res.is_err());
        assert_eq!(
            res.unwrap_err(),
            DiscoverError::DuplicateArgument("provider".to_string())
        );
    }
}

#[test]
fn fail_on_garbage_input() {
    let inputs = vec!["", "!!", "?"];

    for input in inputs {
        let res = ParsedArgs::try_from(input.to_string());
        assert!(res.is_err());
        assert_eq!(
            res.unwrap_err(),
            DiscoverError::MalformedArgument(
                input.to_string(),
                "Expected an argument on the format: key=value".to_string(),
            )
        );
    }
}

#[test]
fn fail_on_malformed_args() {
    let malformed_args = vec!["=", "x:y", "zzzz", "t?x", "help=", "key"];

    for malformed_arg in malformed_args {
        let args = format!("provider=aws region=eu-west-1 {}", malformed_arg);
        let res = ParsedArgs::try_from(args);
        assert!(res.is_err());
        if malformed_arg.ends_with("=") {
            assert_eq!(
                res.unwrap_err(),
                DiscoverError::MalformedArgument(
                    malformed_arg[..malformed_arg.len() - 1].to_string(),
                    "Expected an argument on the format: key=value".to_string(),
                )
            );
        } else {
            assert_eq!(
                res.unwrap_err(),
                DiscoverError::MalformedArgument(
                    malformed_arg.to_string(),
                    "Expected an argument on the format: key=value".to_string(),
                )
            );
        }
    }
}

#[test]
fn parses_well_formed_arguments_into_exactly_their_keys() {
    let res = ParsedArgs::try_from("  provider=AWS tag_key=Name tag_value=a=b  ".to_string());
    let args = res.unwrap();
    assert_eq!(*args.provider(), SupportedProvider::AWS);
    assert_eq!(args.get("provider"), Some(&"AWS".to_string()));
    assert_eq!(args.get("tag_key"), Some(&"Name".to_string()));
    assert_eq!(args.get("tag_value"), Some(&"a=b".to_string()));
    assert_eq!(args.get("region"), None);
    let pairs = args.into_pairs();
    let keys: Vec<&str> = pairs.iter().map(|p| p.0.as_str()).collect();
    assert_eq!(keys, vec!["provider", "tag_key", "tag_value"]);
}

#[test]
fn provider_name_is_case_insensitive() {
    let args = ParsedArgs::try_from("provider=DigitalOcean tag_name=x".to_string()).unwrap();
    assert_eq!(*args.provider(), SupportedProvider::DigitalOcean);
}

#[test]
fn unknown_provider_is_unsupported() {
    let res = ParsedArgs::try_from("tag_name=x provider=Azure".to_string());
    assert_eq!(
        res.unwrap_err(),
        DiscoverError::UnsupportedProvider("Azure".to_string())
    );
}

#[test]
fn duplicate_key_with_different_values_is_reported() {
    let res = ParsedArgs::try_from("provider=aws region=a tag_key=k region=b".to_string());
    assert_eq!(
        res.unwrap_err(),
        DiscoverError::DuplicateArgument("region".to_string())
    );
}

#[test]
fn first_malformed_token_is_reported() {
    let res = ParsedArgs::try_from("provider=aws a= b".to_string());
    assert_eq!(
        res.unwrap_err(),
        DiscoverError::MalformedArgument(
            "a".to_string(),
            "Expected an argument on the format: key=value".to_string(),
        )
    );
}

#[test]
fn tokens_separated_by_any_whitespace() {
    let args = ParsedArgs::try_from("x=1\tprovider=aws".to_string()).unwrap();
    assert_eq!(*args.provider(), SupportedProvider::AWS);
    assert_eq!(args.get("x"), Some(&"1".to_string()));
    let args = ParsedArgs::try_from("provider=aws  \t\n tag_key=k".to_string()).unwrap();
    assert_eq!(args.get("tag_key"), Some(&"k".to_string()));
}

#[test]
fn errors_across_tabs() {
    assert_eq!(
        ParsedArgs::try_from("x\tprovider=aws".to_string()).unwrap_err(),
        DiscoverError::MalformedArgument(
            "x".to_string(),
            "Expected an argument on the format: key=value".to_string(),
        )
    );
    assert_eq!(
        ParsedArgs::try_from("provider=aws\tprovider=do".to_string()).unwrap_err(),
        DiscoverError::DuplicateArgument("provider".to_string())
    );
    assert_eq!(
        ParsedArgs::try_from("provider=gcp\tx=1".to_string()).unwrap_err(),
        DiscoverError::UnsupportedProvider("gcp".to_string())
    );
    assert_eq!(
        ParsedArgs::try_from("x=1\ty=2".to_string()).unwrap_err(),
        DiscoverError::MissingArgument("provider".to_string())
    );
}

#[test]
fn separators_do_not_change_the_result() {
    let a = ParsedArgs::try_from("provider=aws tag_key=k".to_string()).unwrap();
    let b = ParsedArgs::try_from(" \tprovider=aws\t \ttag_key=k\n".to_string()).unwrap();
    assert_eq!(a.into_pairs(), b.into_pairs());
}

#[test]
fn tokens_from_a_vector() {
    let tokens = vec!["provider=digitalocean".to_string(), "tag_name=t".to_string()];
    let args = ParsedArgs::try_from_tokens(tokens).unwrap();
    assert_eq!(*args.provider(), SupportedProvider::DigitalOcean);
    assert_eq!(args.get("tag_name"), Some(&"t".to_string()));
}

#[test]
fn provider_from_lowercase_name() {
    assert_eq!(
        SupportedProvider::from_lowercase(&"aws".to_string()),
        Some(SupportedProvider::AWS)
    );
    assert_eq!(
        SupportedProvider::from_lowercase(&"digitalocean".to_string()),
        Some(SupportedProvider::DigitalOcean)
    );
    assert_eq!(SupportedProvider::from_lowercase(&"AWS".to_string()), None);
}

#[test]
fn trims_unicode_whitespace() {
    assert_eq!(node_discover::args::trim("\u{3000}\t a b \n"), "a b");
    assert_eq!(node_discover::args::trim("   "), "");
    assert_eq!(
        node_discover::args::split_whitespace("a \t b"),
        vec!["a".to_string(), "b".to_string()]
    );
    assert_eq!(node_discover::args::split_whitespace(""), vec!["".to_string()]);
}

#[test]
fn help_topic_from_first_argument() {
    assert_eq!(get_help(&vec![]), None);
    assert_eq!(get_help(&vec!["aws".to_string()]), Some(SupportedProvider::AWS));
    assert_eq!(
        get_help(&vec!["digitalocean".to_string(), "x".to_string()]),
        Some(SupportedProvider::DigitalOcean)
    );
    assert_eq!(get_help(&vec!["AWS".to_string()]), None);
    assert_eq!(get_help(&vec!["gcp".to_string()]), None);
}
