use vstd::prelude::*;

use rusoto_core::Region;
use rusoto_ec2::{DescribeInstancesRequest, Filter};

use crate::args::{
    lemma_lookup_absent, lookup, opt_view, pairs_view, strings_view, ArgPair, ParsedArgs,
};
use crate::errors::{DiscoverError, DiscoverErrorView};
use crate::providers::Provider;

verus! {

#[verifier::external_type_specification]
pub struct ExFilter(Filter);

#[verifier::external_type_specification]
pub struct ExDescribeInstancesRequest(DescribeInstancesRequest);

/// The strings that rusoto accepts as the name of an AWS region.
pub uninterp spec fn region_known(s: Seq<char>) -> bool;

/// Relies on `Region::from_str` of rusoto: whether `s` names a region
/// depends on its characters alone.
#[verifier::external_body]
fn is_region(s: &str) -> (r: bool)
    ensures
        r == region_known(s@),
{
    <Region as std::str::FromStr>::from_str(s).is_ok()
}

/// The class of address to discover.
#[derive(Debug, Clone, Copy, PartialEq, Eq, Structural)]
pub enum AddrType {
    PrivateV4,
    PublicV4,
    PublicV6,
}

/// The address class that `s` names.
pub open spec fn addr_type_named(s: Seq<char>) -> Option<AddrType> {
    if s == "public_v4"@ {
        Some(AddrType::PublicV4)
    } else if s == "public_v6"@ {
        Some(AddrType::PublicV6)
    } else if s == "private_v4"@ {
        Some(AddrType::PrivateV4)
    } else {
        None
    }
}

/// The error for an `addr_type` argument with value `v`.
pub open spec fn bad_addr_type(v: Seq<char>) -> DiscoverErrorView {
    DiscoverErrorView::MalformedArgument("addr_type="@ + v, "Invalid addr_type"@)
}

/// The error for a `region` argument with value `v`.
pub open spec fn bad_region(v: Seq<char>) -> DiscoverErrorView {
    DiscoverErrorView::MalformedArgument("region="@ + v, "The value is not a valid AWS Region"@)
}

/// `prefix` followed by `s`.
fn prefixed(prefix: &str, s: &str) -> (r: String)
    ensures
        r@ == prefix@ + s@,
{
    let mut r = String::from_str(prefix);
    r.append(s);
    r
}

impl AddrType {
    /// The address class named by `value`.
    pub fn try_from(value: String) -> (r: Result<AddrType, DiscoverError>)
        ensures
            match r {
                Ok(t) => addr_type_named(value@) == Some(t),
                Err(e) => addr_type_named(value@) is None && e@ == bad_addr_type(value@),
            },
    {
        if value == String::from_str("public_v4") {
            Ok(AddrType::PublicV4)
        } else if value == String::from_str("public_v6") {
            Ok(AddrType::PublicV6)
        } else if value == String::from_str("private_v4") {
            Ok(AddrType::PrivateV4)
        } else {
            Err(
                DiscoverError::MalformedArgument(
                    prefixed("addr_type=", value.as_str()),
                    String::from_str("Invalid addr_type"),
                ),
            )
        }
    }
}

/// What is wrong with the argument `k=v` for AWS, if anything.
pub open spec fn aws_entry_error(k: Seq<char>, v: Seq<char>) -> Option<DiscoverErrorView> {
    if k == "tag_key"@ || k == "tag_value"@ || k == "provider"@ {
        None
    } else if k == "region"@ {
        if region_known(v) {
            None
        } else {
            Some(bad_region(v))
        }
    } else if k == "addr_type"@ {
        if addr_type_named(v) is Some {
            None
        } else {
            Some(bad_addr_type(v))
        }
    } else {
        Some(DiscoverErrorView::UnexpectedArgument(k))
    }
}

/// The error of the first pair of `ps` that AWS does not accept.
pub open spec fn first_aws_error(ps: Seq<ArgPair>) -> Option<DiscoverErrorView>
    decreases ps.len(),
{
    if ps.len() == 0 {
        None
    } else {
        match first_aws_error(ps.drop_last()) {
            Some(e) => Some(e),
            None => aws_entry_error(ps.last().0, ps.last().1),
        }
    }
}

/// The address class that an `addr_type` argument (or its absence) selects.
pub open spec fn addr_type_or_default(v: Option<Seq<char>>) -> AddrType {
    match v {
        Some(a) => match addr_type_named(a) {
            Some(t) => t,
            None => AddrType::PrivateV4,
        },
        None => AddrType::PrivateV4,
    }
}

/// The model of an AWS configuration: tag key, tag value, the region named
/// by the arguments (none: the region the caller runs in) and address class.
pub struct AwsConfigView {
    pub tag_key: Seq<char>,
    pub tag_value: Seq<char>,
    pub region: Option<Seq<char>>,
    pub addr_type: AddrType,
}

/// The AWS configuration that the pairs `ps` give.
pub open spec fn aws_config_spec(ps: Seq<ArgPair>) -> Result<AwsConfigView, DiscoverErrorView> {
    match first_aws_error(ps) {
        Some(e) => Err(e),
        None => match lookup(ps, "tag_key"@) {
            None => Err(DiscoverErrorView::MissingArgument("tag_key"@)),
            Some(k) => match lookup(ps, "tag_value"@) {
                None => Err(DiscoverErrorView::MissingArgument("tag_value"@)),
                Some(v) => Ok(
                    AwsConfigView {
                        tag_key: k,
                        tag_value: v,
                        region: lookup(ps, "region"@),
                        addr_type: addr_type_or_default(lookup(ps, "addr_type"@)),
                    },
                ),
            },
        },
    }
}

/// Discovers EC2 instances by tag, in one region: the one named, a known AWS
/// region, or where none is named the region that the caller runs in.
#[derive(Debug, Clone)]
pub struct AWSProvider {
    tag_key: String,
    tag_value: String,
    region: Option<String>,
    addr_type: AddrType,
}

impl View for AWSProvider {
    type V = AwsConfigView;

    closed spec fn view(&self) -> AwsConfigView {
        AwsConfigView {
            tag_key: self.tag_key@,
            tag_value: self.tag_value@,
            region: opt_view(self.region),
            addr_type: self.addr_type,
        }
    }
}

/// The model of a configuration result.
pub open spec fn aws_result_view(r: Result<AWSProvider, DiscoverError>) -> Result<
    AwsConfigView,
    DiscoverErrorView,
> {
    match r {
        Ok(p) => Ok(p@),
        Err(e) => Err(e@),
    }
}

impl AWSProvider {
    /// Builds the configuration from validated arguments. Accepted keys are
    /// `tag_key` and `tag_value` (both required), `region` (a known AWS
    /// region; where absent, the caller resolves the region it runs in) and
    /// `addr_type` (`private_v4` where absent), besides `provider`.
    pub fn try_from(args: ParsedArgs) -> (r: Result<AWSProvider, DiscoverError>)
        ensures
            aws_result_view(r) == aws_config_spec(args@),
    {
        let ghost ps = args@;
        let pairs = args.into_pairs();
        let k_tag_key = String::from_str("tag_key");
        let k_tag_value = String::from_str("tag_value");
        let k_region = String::from_str("region");
        let k_addr_type = String::from_str("addr_type");
        let k_provider = String::from_str("provider");
        let mut tag_key: Option<String> = None;
        let mut tag_value: Option<String> = None;
        let mut region: Option<String> = None;
        let mut addr_type = AddrType::PrivateV4;
        let mut i: usize = 0;
        while i < pairs.len()
            invariant
                ps == args@,
                ps == pairs_view(pairs@),
                i <= pairs@.len(),
                k_tag_key@ == "tag_key"@,
                k_tag_value@ == "tag_value"@,
                k_region@ == "region"@,
                k_addr_type@ == "addr_type"@,
                k_provider@ == "provider"@,
                first_aws_error(ps.take(i as int)) is None,
                opt_view(tag_key) == lookup(ps.take(i as int), "tag_key"@),
                opt_view(tag_value) == lookup(ps.take(i as int), "tag_value"@),
                opt_view(region) == lookup(ps.take(i as int), "region"@),
                addr_type == addr_type_or_default(lookup(ps.take(i as int), "addr_type"@)),
            decreases pairs@.len() - i,
        {
            proof {
                assert(ps.take(i + 1).drop_last() =~= ps.take(i as int));
                assert(ps.take(i + 1).last() == ps[i as int]);
                assert(ps[i as int] == (pairs@[i as int].0@, pairs@[i as int].1@));
                lemma_aws_keys_distinct();
            }
            let key = &pairs[i].0;
            let value = &pairs[i].1;
            if *key == k_tag_key {
                tag_key = Some(value.clone());
            } else if *key == k_tag_value {
                tag_value = Some(value.clone());
            } else if *key == k_region {
                if is_region(value.as_str()) {
                    region = Some(value.clone());
                } else {
                    proof {
                        lemma_first_aws_error_extends(ps, i + 1);
                    }
                    return Err(
                        DiscoverError::MalformedArgument(
                            prefixed("region=", value.as_str()),
                            String::from_str("The value is not a valid AWS Region"),
                        ),
                    );
                }
            } else if *key == k_addr_type {
                match AddrType::try_from(value.clone()) {
                    Ok(t) => {
                        addr_type = t;
                    },
                    Err(e) => {
                        proof {
                            lemma_first_aws_error_extends(ps, i + 1);
                        }
                        return Err(e);
                    },
                }
            } else if *key == k_provider {
            } else {
                proof {
                    lemma_first_aws_error_extends(ps, i + 1);
                }
                return Err(DiscoverError::UnexpectedArgument(key.clone()));
            }
            i = i + 1;
        }
        proof {
            assert(ps.take(pairs@.len() as int) =~= ps);
        }
        let tag_key = match tag_key {
            Some(k) => k,
            None => {
                return Err(DiscoverError::MissingArgument(k_tag_key));
            },
        };
        let tag_value = match tag_value {
            Some(v) => v,
            None => {
                return Err(DiscoverError::MissingArgument(k_tag_value));
            },
        };
        Ok(AWSProvider { tag_key, tag_value, region, addr_type })
    }

    /// The tag key that instances are filtered on.
    pub fn tag_key(&self) -> (r: &str)
        ensures
            r@ == self@.tag_key,
    {
        self.tag_key.as_str()
    }

    /// The tag value that instances are filtered on.
    pub fn tag_value(&self) -> (r: &str)
        ensures
            r@ == self@.tag_value,
    {
        self.tag_value.as_str()
    }

    /// The region that was named, a known AWS region; `None` stands for the
    /// region that the caller runs in.
    pub fn region(&self) -> (r: Option<&String>)
        ensures
            match r {
                Some(s) => self@.region == Some(s@),
                None => self@.region is None,
            },
    {
        match &self.region {
            Some(s) => Some(s),
            None => None,
        }
    }

    /// The class of address that is collected.
    pub fn addr_type(&self) -> (r: &AddrType)
        ensures
            *r == self@.addr_type,
    {
        &self.addr_type
    }
}

proof fn lemma_aws_keys_distinct()
    ensures
        "tag_key"@ != "tag_value"@,
        "tag_key"@ != "region"@,
        "tag_key"@ != "addr_type"@,
        "tag_key"@ != "provider"@,
        "tag_value"@ != "region"@,
        "tag_value"@ != "addr_type"@,
        "tag_value"@ != "provider"@,
        "region"@ != "addr_type"@,
        "region"@ != "provider"@,
        "addr_type"@ != "provider"@,
{
    reveal_strlit("tag_key");
    reveal_strlit("tag_value");
    reveal_strlit("region");
    reveal_strlit("addr_type");
    reveal_strlit("provider");
    assert("tag_key"@.len() == 7);
    assert("tag_value"@.len() == 9);
    assert("region"@.len() == 6);
    assert("addr_type"@.len() == 9);
    assert("provider"@.len() == 8);
    assert("tag_value"@[0] != "addr_type"@[0]);
}

/// `f` is the filter named `name` that matches any of `values`.
pub open spec fn filter_is(f: Filter, name: Seq<char>, values: Seq<Seq<char>>) -> bool {
    &&& f.name matches Some(n) && n@ == name
    &&& f.values matches Some(vs) && strings_view(vs@) == values
}

impl AWSProvider {
    /// The inventory query: the instances that carry the tag `tag_key` with
    /// value `tag_value` and are running.
    pub fn instances_request(&self) -> (r: DescribeInstancesRequest)
        ensures
            r.dry_run is None,
            r.instance_ids is None,
            r.max_results is None,
            r.next_token is None,
            r.filters matches Some(fs) && fs@.len() == 2 && filter_is(
                fs@[0],
                "tag:"@ + self@.tag_key,
                seq![self@.tag_value],
            ) && filter_is(fs@[1], "instance-state-name"@, seq!["running"@]),
    {
        let mut tag_values: Vec<String> = Vec::new();
        tag_values.push(self.tag_value.clone());
        let mut states: Vec<String> = Vec::new();
        states.push(String::from_str("running"));
        let mut filters: Vec<Filter> = Vec::new();
        let tag_filter = prefixed("tag:", self.tag_key.as_str());
        filters.push(Filter { name: Some(tag_filter), values: Some(tag_values) });
        filters.push(
            Filter { name: Some(String::from_str("instance-state-name")), values: Some(states) },
        );
        proof {
            assert(strings_view(tag_values@) =~= seq![self@.tag_value]);
            assert(strings_view(states@) =~= seq!["running"@]);
        }
        DescribeInstancesRequest {
            dry_run: None,
            filters: Some(filters),
            instance_ids: None,
            max_results: None,
            next_token: None,
        }
    }
}

// ---------------------------------------------------------------------------
// Addresses out of the inventory
// ---------------------------------------------------------------------------

/// A network interface of an instance: its IPv6 addresses, each of which the
/// inventory may leave without a value.
#[derive(Debug, Clone)]
pub struct NetworkInterface {
    pub ipv6_addresses: Vec<Option<String>>,
}

/// An instance as the inventory describes it.
#[derive(Debug, Clone)]
pub struct Instance {
    pub private_ip_address: Option<String>,
    pub public_ip_address: Option<String>,
    pub network_interfaces: Vec<NetworkInterface>,
}

/// A group of instances launched together.
#[derive(Debug, Clone)]
pub struct Reservation {
    pub instances: Vec<Instance>,
}

/// The address in `o`, if there is one, as a sequence of zero or one addresses.
pub open spec fn present(o: Option<String>) -> Seq<Seq<char>> {
    match o {
        Some(s) => seq![s@],
        None => Seq::empty(),
    }
}

/// The IPv6 addresses that have a value, in order.
pub open spec fn present_all(v: Seq<Option<String>>) -> Seq<Seq<char>>
    decreases v.len(),
{
    if v.len() == 0 {
        Seq::empty()
    } else {
        present_all(v.drop_last()) + present(v.last())
    }
}

/// The IPv6 addresses of all the interfaces, interface by interface.
pub open spec fn interfaces_addrs(v: Seq<NetworkInterface>) -> Seq<Seq<char>>
    decreases v.len(),
{
    if v.len() == 0 {
        Seq::empty()
    } else {
        interfaces_addrs(v.drop_last()) + present_all(v.last().ipv6_addresses@)
    }
}

/// The addresses of class `t` that instance `inst` contributes.
pub open spec fn instance_addrs(inst: Instance, t: AddrType) -> Seq<Seq<char>> {
    match t {
        AddrType::PrivateV4 => present(inst.private_ip_address),
        AddrType::PublicV4 => present(inst.public_ip_address),
        AddrType::PublicV6 => interfaces_addrs(inst.network_interfaces@),
    }
}

/// The addresses of class `t` of the instances `v`, in order.
pub open spec fn instances_addrs(v: Seq<Instance>, t: AddrType) -> Seq<Seq<char>>
    decreases v.len(),
{
    if v.len() == 0 {
        Seq::empty()
    } else {
        instances_addrs(v.drop_last(), t) + instance_addrs(v.last(), t)
    }
}

/// The addresses of class `t` of all the reservations, in the order the
/// inventory gave them.
pub open spec fn reservations_addrs(v: Seq<Reservation>, t: AddrType) -> Seq<Seq<char>>
    decreases v.len(),
{
    if v.len() == 0 {
        Seq::empty()
    } else {
        reservations_addrs(v.drop_last(), t) + instances_addrs(v.last().instances@, t)
    }
}

/// Appends the address in `o`, if there is one.
fn push_present(o: &Option<String>, out: &mut Vec<String>)
    ensures
        strings_view(final(out)@) == strings_view(old(out)@) + present(*o),
{
    match o {
        Some(a) => {
            let c = a.clone();
            proof {
                assert(strings_view(old(out)@.push(c)) =~= strings_view(old(out)@) + seq![a@]);
            }
            out.push(c);
        },
        None => {
            assert(strings_view(old(out)@) + present(*o) =~= strings_view(old(out)@));
        },
    }
}

/// Appends the IPv6 addresses of all the interfaces `v`.
fn push_interfaces(v: &Vec<NetworkInterface>, out: &mut Vec<String>)
    ensures
        strings_view(final(out)@) == strings_view(old(out)@) + interfaces_addrs(v@),
{
    let ghost start = strings_view(out@);
    let mut i: usize = 0;
    assert(start + interfaces_addrs(v@.take(0)) =~= start);
    while i < v.len()
        invariant
            i <= v@.len(),
            strings_view(out@) == start + interfaces_addrs(v@.take(i as int)),
        decreases v@.len() - i,
    {
        let addrs = &v[i].ipv6_addresses;
        let ghost before = strings_view(out@);
        let mut j: usize = 0;
        assert(before + present_all(addrs@.take(0)) =~= before);
        while j < addrs.len()
            invariant
                j <= addrs@.len(),
                strings_view(out@) == before + present_all(addrs@.take(j as int)),
            decreases addrs@.len() - j,
        {
            proof {
                assert(addrs@.take(j + 1).drop_last() =~= addrs@.take(j as int));
            }
            push_present(&addrs[j], out);
            assert(strings_view(out@) =~= before + present_all(addrs@.take(j + 1)));
            j = j + 1;
        }
        proof {
            assert(addrs@.take(addrs@.len() as int) =~= addrs@);
            assert(v@.take(i + 1).drop_last() =~= v@.take(i as int));
            assert(strings_view(out@) =~= start + interfaces_addrs(v@.take(i + 1)));
        }
        i = i + 1;
    }
    assert(v@.take(v@.len() as int) =~= v@);
}

/// Appends the addresses of class `t` that `inst` contributes.
fn push_instance(inst: &Instance, t: AddrType, out: &mut Vec<String>)
    ensures
        strings_view(final(out)@) == strings_view(old(out)@) + instance_addrs(*inst, t),
{
    match t {
        AddrType::PrivateV4 => push_present(&inst.private_ip_address, out),
        AddrType::PublicV4 => push_present(&inst.public_ip_address, out),
        AddrType::PublicV6 => push_interfaces(&inst.network_interfaces, out),
    }
}

/// The addresses of class `t` in the reservations `v`: for each instance, its
/// private or public IPv4 address where it has one, or every IPv6 address of
/// every network interface; in the order the inventory gave them.
pub fn reservation_addrs(v: &Vec<Reservation>, t: AddrType) -> (r: Vec<String>)
    ensures
        strings_view(r@) == reservations_addrs(v@, t),
{
    let mut out: Vec<String> = Vec::new();
    let mut i: usize = 0;
    assert(strings_view(out@) =~= reservations_addrs(v@.take(0), t));
    while i < v.len()
        invariant
            i <= v@.len(),
            strings_view(out@) == reservations_addrs(v@.take(i as int), t),
        decreases v@.len() - i,
    {
        let insts = &v[i].instances;
        let ghost before = strings_view(out@);
        let mut j: usize = 0;
        assert(before + instances_addrs(insts@.take(0), t) =~= before);
        while j < insts.len()
            invariant
                j <= insts@.len(),
                strings_view(out@) == before + instances_addrs(insts@.take(j as int), t),
            decreases insts@.len() - j,
        {
            proof {
                assert(insts@.take(j + 1).drop_last() =~= insts@.take(j as int));
            }
            push_instance(&insts[j], t, &mut out);
            assert(strings_view(out@) =~= before + instances_addrs(insts@.take(j + 1), t));
            j = j + 1;
        }
        proof {
            assert(insts@.take(insts@.len() as int) =~= insts@);
            assert(v@.take(i + 1).drop_last() =~= v@.take(i as int));
            assert(strings_view(out@) =~= reservations_addrs(v@.take(i + 1), t));
        }
        i = i + 1;
    }
    assert(v@.take(v@.len() as int) =~= v@);
    out
}

impl Provider for AWSProvider {
    type Inventory = Vec<Reservation>;

    open spec fn spec_addrs(&self, inventory: &Vec<Reservation>) -> Seq<Seq<char>> {
        reservations_addrs(inventory@, self@.addr_type)
    }

    fn addrs(&self, inventory: &Vec<Reservation>) -> (r: Vec<String>) {
        reservation_addrs(inventory, self.addr_type)
    }

    fn help() -> &'static str {
        "Amazon AWS:

	provider:          \"aws\"
	region:            The AWS region. Default to region of instance.
	tag_key:           The tag key to filter on
	tag_value:         The tag value to filter on
	addr_type:         \"private_v4\", \"public_v4\" or \"public_v6\". Defaults to \"private_v4\".
	access_key_id:     The AWS access key to use
	secret_access_key: The AWS secret access key to use

	The only required IAM permission is 'ec2:DescribeInstances'. If the Consul agent is
	running on AWS instance it is recommended you use an IAM role, otherwise it is
	recommended you make a dedicated IAM user and access key used only for auto-joining.
	"
    }
}

/// An error among the first `k` pairs is the error of them all.
proof fn lemma_first_aws_error_extends(ps: Seq<ArgPair>, k: int)
    requires
        0 <= k <= ps.len(),
        first_aws_error(ps.take(k)) is Some,
    ensures
        first_aws_error(ps) == first_aws_error(ps.take(k)),
    decreases ps.len() - k,
{
    if k < ps.len() {
        assert(ps.take(k + 1).drop_last() =~= ps.take(k));
        lemma_first_aws_error_extends(ps, k + 1);
    } else {
        assert(ps.take(k) =~= ps);
    }
}

proof fn lemma_no_aws_error_prefix(ps: Seq<ArgPair>, n: int)
    requires
        0 <= n <= ps.len(),
        forall|j: int| 0 <= j < n ==> aws_entry_error((#[trigger] ps[j]).0, ps[j].1) is None,
    ensures
        first_aws_error(ps.take(n)) is None,
    decreases n,
{
    if n > 0 {
        assert(ps.take(n).drop_last() =~= ps.take(n - 1));
        lemma_no_aws_error_prefix(ps, n - 1);
        assert(ps.take(n).last() == ps[n - 1]);
    }
}

/// An `addr_type` other than `private_v4`, `public_v4` and `public_v6`
/// fails with a malformed argument, where no earlier argument was rejected.
pub proof fn lemma_aws_bad_addr_type(ps: Seq<ArgPair>, i: int)
    requires
        0 <= i < ps.len(),
        ps[i].0 == "addr_type"@,
        addr_type_named(ps[i].1) is None,
        forall|j: int| 0 <= j < i ==> aws_entry_error((#[trigger] ps[j]).0, ps[j].1) is None,
    ensures
        aws_config_spec(ps) == Err::<AwsConfigView, _>(bad_addr_type(ps[i].1)),
{
    lemma_aws_keys_distinct();
    lemma_no_aws_error_prefix(ps, i);
    assert(ps.take(i + 1).drop_last() =~= ps.take(i));
    assert(ps.take(i + 1).last() == ps[i]);
    lemma_first_aws_error_extends(ps, i + 1);
}

/// A key that AWS does not know fails with that key, where no earlier
/// argument was rejected.
pub proof fn lemma_aws_unexpected_key(ps: Seq<ArgPair>, i: int)
    requires
        0 <= i < ps.len(),
        ps[i].0 != "tag_key"@,
        ps[i].0 != "tag_value"@,
        ps[i].0 != "region"@,
        ps[i].0 != "addr_type"@,
        ps[i].0 != "provider"@,
        forall|j: int| 0 <= j < i ==> aws_entry_error((#[trigger] ps[j]).0, ps[j].1) is None,
    ensures
        aws_config_spec(ps) == Err::<AwsConfigView, _>(
            DiscoverErrorView::UnexpectedArgument(ps[i].0),
        ),
{
    lemma_no_aws_error_prefix(ps, i);
    assert(ps.take(i + 1).drop_last() =~= ps.take(i));
    assert(ps.take(i + 1).last() == ps[i]);
    lemma_first_aws_error_extends(ps, i + 1);
}

/// Without an `addr_type` argument the address class is `private_v4`.
pub proof fn lemma_aws_addr_type_default(ps: Seq<ArgPair>)
    requires
        forall|i: int| 0 <= i < ps.len() ==> (#[trigger] ps[i]).0 != "addr_type"@,
    ensures
        aws_config_spec(ps) is Ok ==> aws_config_spec(ps)->Ok_0.addr_type == AddrType::PrivateV4,
{
    lemma_lookup_absent(ps, "addr_type"@);
}

} // verus!
