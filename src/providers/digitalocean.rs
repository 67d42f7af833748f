use vstd::prelude::*;

use crate::args::{
    lemma_lookup_absent, lookup, opt_view, pairs_view, strings_view, ArgPair, ParsedArgs,
};
use crate::errors::{DiscoverError, DiscoverErrorView};
use crate::providers::Provider;

verus! {

/// The number of droplets asked for in each page.
pub const PER_PAGE: u64 = 200;

// ---------------------------------------------------------------------------
// Configuration
// ---------------------------------------------------------------------------

/// What is wrong with the argument `k` for DigitalOcean, if anything.
pub open spec fn do_entry_error(k: Seq<char>) -> Option<DiscoverErrorView> {
    if k == "tag_name"@ || k == "region"@ || k == "api_token"@ || k == "provider"@ {
        None
    } else {
        Some(DiscoverErrorView::UnexpectedArgument(k))
    }
}

/// The error of the first pair of `ps` that DigitalOcean does not accept.
pub open spec fn first_do_error(ps: Seq<ArgPair>) -> Option<DiscoverErrorView>
    decreases ps.len(),
{
    if ps.len() == 0 {
        None
    } else {
        match first_do_error(ps.drop_last()) {
            Some(e) => Some(e),
            None => do_entry_error(ps.last().0),
        }
    }
}

/// The model of a DigitalOcean configuration.
pub struct DoConfigView {
    pub tag_name: Seq<char>,
    pub region: Option<Seq<char>>,
    pub api_token: Seq<char>,
}

/// The token given as an argument, or else the one from the environment.
pub open spec fn token_or(arg: Option<Seq<char>>, env_token: Option<Seq<char>>) -> Option<
    Seq<char>,
> {
    match arg {
        Some(t) => Some(t),
        None => env_token,
    }
}

/// The DigitalOcean configuration that the pairs `ps` give, where
/// `env_token` is the token that the environment holds, if any.
pub open spec fn do_config_spec(ps: Seq<ArgPair>, env_token: Option<Seq<char>>) -> Result<
    DoConfigView,
    DiscoverErrorView,
> {
    match first_do_error(ps) {
        Some(e) => Err(e),
        None => match lookup(ps, "tag_name"@) {
            None => Err(DiscoverErrorView::MissingArgument("tag_name"@)),
            Some(t) => match token_or(lookup(ps, "api_token"@), env_token) {
                None => Err(DiscoverErrorView::MissingArgument("api_token"@)),
                Some(a) => Ok(
                    DoConfigView { tag_name: t, region: lookup(ps, "region"@), api_token: a },
                ),
            },
        },
    }
}

/// Discovers droplets by tag, in one region or in all.
#[derive(Debug, Clone)]
pub struct DOProvider {
    region: Option<String>,
    tag_name: String,
    api_token: String,
}

impl View for DOProvider {
    type V = DoConfigView;

    closed spec fn view(&self) -> DoConfigView {
        DoConfigView {
            tag_name: self.tag_name@,
            region: opt_view(self.region),
            api_token: self.api_token@,
        }
    }
}

/// The model of a configuration result.
pub open spec fn do_result_view(r: Result<DOProvider, DiscoverError>) -> Result<
    DoConfigView,
    DiscoverErrorView,
> {
    match r {
        Ok(p) => Ok(p@),
        Err(e) => Err(e@),
    }
}

proof fn lemma_do_keys_distinct()
    ensures
        "tag_name"@ != "region"@,
        "tag_name"@ != "api_token"@,
        "tag_name"@ != "provider"@,
        "region"@ != "api_token"@,
        "region"@ != "provider"@,
        "api_token"@ != "provider"@,
{
    reveal_strlit("tag_name");
    reveal_strlit("region");
    reveal_strlit("api_token");
    reveal_strlit("provider");
    assert("tag_name"@.len() == 8);
    assert("region"@.len() == 6);
    assert("api_token"@.len() == 9);
    assert("provider"@.len() == 8);
    assert("tag_name"@[0] != "provider"@[0]);
}

/// An error among the first `k` pairs is the error of them all.
proof fn lemma_first_do_error_extends(ps: Seq<ArgPair>, k: int)
    requires
        0 <= k <= ps.len(),
        first_do_error(ps.take(k)) is Some,
    ensures
        first_do_error(ps) == first_do_error(ps.take(k)),
    decreases ps.len() - k,
{
    if k < ps.len() {
        assert(ps.take(k + 1).drop_last() =~= ps.take(k));
        lemma_first_do_error_extends(ps, k + 1);
    } else {
        assert(ps.take(k) =~= ps);
    }
}

impl DOProvider {
    /// Builds the configuration from validated arguments. Accepted keys are
    /// `tag_name` (required), `region` (no region: all of them) and
    /// `api_token`, besides `provider`; where `api_token` is absent the token
    /// is `env_token`, the one that the environment holds.
    pub fn try_from(args: ParsedArgs, env_token: Option<String>) -> (r: Result<
        DOProvider,
        DiscoverError,
    >)
        ensures
            do_result_view(r) == do_config_spec(args@, opt_view(env_token)),
    {
        let ghost ps = args@;
        let pairs = args.into_pairs();
        let k_tag_name = String::from_str("tag_name");
        let k_region = String::from_str("region");
        let k_api_token = String::from_str("api_token");
        let k_provider = String::from_str("provider");
        let mut tag_name: Option<String> = None;
        let mut region: Option<String> = None;
        let mut api_token: Option<String> = None;
        let mut i: usize = 0;
        while i < pairs.len()
            invariant
                ps == args@,
                ps == pairs_view(pairs@),
                i <= pairs@.len(),
                k_tag_name@ == "tag_name"@,
                k_region@ == "region"@,
                k_api_token@ == "api_token"@,
                k_provider@ == "provider"@,
                first_do_error(ps.take(i as int)) is None,
                opt_view(tag_name) == lookup(ps.take(i as int), "tag_name"@),
                opt_view(region) == lookup(ps.take(i as int), "region"@),
                opt_view(api_token) == lookup(ps.take(i as int), "api_token"@),
            decreases pairs@.len() - i,
        {
            proof {
                assert(ps.take(i + 1).drop_last() =~= ps.take(i as int));
                assert(ps.take(i + 1).last() == ps[i as int]);
                assert(ps[i as int] == (pairs@[i as int].0@, pairs@[i as int].1@));
                lemma_do_keys_distinct();
            }
            let key = &pairs[i].0;
            let value = &pairs[i].1;
            if *key == k_tag_name {
                tag_name = Some(value.clone());
            } else if *key == k_region {
                region = Some(value.clone());
            } else if *key == k_api_token {
                api_token = Some(value.clone());
            } else if *key == k_provider {
            } else {
                proof {
                    lemma_first_do_error_extends(ps, i + 1);
                }
                return Err(DiscoverError::UnexpectedArgument(key.clone()));
            }
            i = i + 1;
        }
        proof {
            assert(ps.take(pairs@.len() as int) =~= ps);
        }
        let tag_name = match tag_name {
            Some(t) => t,
            None => {
                return Err(DiscoverError::MissingArgument(k_tag_name));
            },
        };
        let api_token = match api_token {
            Some(t) => t,
            None => match env_token {
                Some(t) => t,
                None => {
                    return Err(DiscoverError::MissingArgument(k_api_token));
                },
            },
        };
        Ok(DOProvider { region, tag_name, api_token })
    }

    /// The tag that droplets are filtered on.
    pub fn tag_name(&self) -> (r: &str)
        ensures
            r@ == self@.tag_name,
    {
        self.tag_name.as_str()
    }

    /// The region that droplets must be in, if one was given.
    pub fn region(&self) -> (r: Option<&String>)
        ensures
            match r {
                Some(s) => self@.region == Some(s@),
                None => self@.region is None,
            },
    {
        match &self.region {
            Some(s) => Some(s),
            None => None,
        }
    }

    /// The API token that requests are authorized with.
    pub fn api_token(&self) -> (r: &str)
        ensures
            r@ == self@.api_token,
    {
        self.api_token.as_str()
    }
}

// ---------------------------------------------------------------------------
// Requests
// ---------------------------------------------------------------------------

/// The decimal digit of value `d`.
pub open spec fn digit(d: nat) -> char {
    "0123456789"@[d as int]
}

/// The decimal notation of `n`, without leading zeros.
pub open spec fn decimal(n: nat) -> Seq<char>
    decreases n,
{
    if n < 10 {
        seq![digit(n)]
    } else {
        decimal(n / 10).push(digit(n % 10))
    }
}

/// The decimal notation of `n`.
pub fn to_decimal(n: u64) -> (r: String)
    ensures
        r@ == decimal(n as nat),
    decreases n,
{
    let digits = "0123456789";
    proof {
        reveal_strlit("0123456789");
    }
    let d = (n % 10) as usize;
    let last = digits.substring_char(d, d + 1);
    assert(last@ =~= seq![digit((n % 10) as nat)]);
    if n < 10 {
        String::from_str(last)
    } else {
        let mut r = to_decimal(n / 10);
        r.append(last);
        r
    }
}

/// The address of page `page` of the droplets that carry tag `tag`.
pub open spec fn droplets_url(page: nat, tag: Seq<char>) -> Seq<char> {
    "https://api.digitalocean.com/v2/droplets?page="@ + decimal(page) + "&per_page="@ + decimal(
        PER_PAGE as nat,
    ) + "&tag_name="@ + tag
}

impl DOProvider {
    /// The address that lists page `page` of the droplets with this tag.
    pub fn droplets_url(&self, page: u64) -> (r: String)
        ensures
            r@ == droplets_url(page as nat, self@.tag_name),
    {
        let mut r = String::from_str("https://api.digitalocean.com/v2/droplets?page=");
        r.append(to_decimal(page).as_str());
        r.append("&per_page=");
        r.append(to_decimal(PER_PAGE).as_str());
        r.append("&tag_name=");
        r.append(self.tag_name.as_str());
        r
    }

    /// The value of the `Authorization` header of each request.
    pub fn authorization(&self) -> (r: String)
        ensures
            r@ == "Bearer "@ + self@.api_token,
    {
        let mut r = String::from_str("Bearer ");
        r.append(self.api_token.as_str());
        r
    }
}

// ---------------------------------------------------------------------------
// Pagination
// ---------------------------------------------------------------------------

/// What to do next while listing droplets.
#[derive(Debug, Clone, Copy, PartialEq, Eq, Structural)]
pub enum PageStep {
    /// Request the page with this number.
    Fetch(u64),
    /// The listing is complete.
    Done,
}

/// The model of a [`DropletPager`].
pub struct PagerView {
    pub next_page: nat,
    pub droplets: Seq<Droplet>,
    pub done: bool,
}

/// The state of a listing of droplets, one page after the other. Pages are
/// numbered from 1; a page with fewer than [`PER_PAGE`] droplets is the last.
#[derive(Debug, Clone)]
pub struct DropletPager {
    next_page: u64,
    droplets: Vec<Droplet>,
    done: bool,
}

impl View for DropletPager {
    type V = PagerView;

    closed spec fn view(&self) -> PagerView {
        PagerView { next_page: self.next_page as nat, droplets: self.droplets@, done: self.done }
    }
}

impl DropletPager {
    /// A listing that has not started: the first page is to be requested.
    pub fn new() -> (r: DropletPager)
        ensures
            r@.next_page == 1,
            r@.droplets == Seq::<Droplet>::empty(),
            !r@.done,
    {
        DropletPager { next_page: 1, droplets: Vec::new(), done: false }
    }

    /// The next request, or the end of the listing.
    pub fn next_step(&self) -> (r: PageStep)
        ensures
            r == (if self@.done {
                PageStep::Done
            } else {
                PageStep::Fetch(self@.next_page as u64)
            }),
    {
        if self.done {
            PageStep::Done
        } else {
            PageStep::Fetch(self.next_page)
        }
    }

    /// Takes in the droplets of the page just requested. The listing goes on
    /// while a page is full, and ends with the first page that is not.
    pub fn receive(&mut self, page: Vec<Droplet>)
        requires
            !old(self)@.done,
            old(self)@.next_page < u64::MAX,
        ensures
            final(self)@.droplets == old(self)@.droplets + page@,
            final(self)@.next_page == old(self)@.next_page + 1,
            final(self)@.done == (page@.len() < PER_PAGE),
    {
        let n = page.len();
        let mut page = page;
        self.droplets.append(&mut page);
        self.next_page = self.next_page + 1;
        self.done = n < PER_PAGE as usize;
    }

    /// The droplets of all the pages received, in order.
    pub fn into_droplets(self) -> (r: Vec<Droplet>)
        ensures
            r@ == self@.droplets,
    {
        self.droplets
    }
}

// ---------------------------------------------------------------------------
// Addresses out of the droplets
// ---------------------------------------------------------------------------

/// A network of a droplet; `variant` is `private` or `public`.
#[derive(Debug, Clone)]
pub struct Network {
    pub ip_address: String,
    pub netmask: String,
    pub gateway: String,
    pub variant: String,
}

/// The IPv4 and IPv6 networks of a droplet.
#[derive(Debug, Clone)]
pub struct Networks {
    pub v4: Vec<Network>,
    pub v6: Vec<Network>,
}

/// The region that a droplet runs in.
#[derive(Debug, Clone)]
pub struct DropletRegion {
    pub slug: String,
}

/// A droplet as the listing describes it.
#[derive(Debug, Clone)]
pub struct Droplet {
    pub id: u64,
    pub name: String,
    pub networks: Networks,
    pub region: DropletRegion,
}

/// The addresses of the private networks among `v`, in order.
pub open spec fn private_addrs(v: Seq<Network>) -> Seq<Seq<char>>
    decreases v.len(),
{
    if v.len() == 0 {
        Seq::empty()
    } else if v.last().variant@ == "private"@ {
        private_addrs(v.drop_last()).push(v.last().ip_address@)
    } else {
        private_addrs(v.drop_last())
    }
}

/// Droplet `d` is in region `region`, or no region was asked for.
pub open spec fn in_region(d: Droplet, region: Option<Seq<char>>) -> bool {
    match region {
        Some(r) => d.region.slug@ == r,
        None => true,
    }
}

/// The private IPv4 addresses of the droplets of `v` in `region`, in order.
pub open spec fn droplets_addrs(v: Seq<Droplet>, region: Option<Seq<char>>) -> Seq<Seq<char>>
    decreases v.len(),
{
    if v.len() == 0 {
        Seq::empty()
    } else if in_region(v.last(), region) {
        droplets_addrs(v.drop_last(), region) + private_addrs(v.last().networks.v4@)
    } else {
        droplets_addrs(v.drop_last(), region)
    }
}

/// Appends the addresses of the private networks among `v`.
fn push_private(v: &Vec<Network>, out: &mut Vec<String>)
    ensures
        strings_view(final(out)@) == strings_view(old(out)@) + private_addrs(v@),
{
    let ghost start = strings_view(out@);
    let private = String::from_str("private");
    let mut i: usize = 0;
    assert(start + private_addrs(v@.take(0)) =~= start);
    while i < v.len()
        invariant
            i <= v@.len(),
            private@ == "private"@,
            strings_view(out@) == start + private_addrs(v@.take(i as int)),
        decreases v@.len() - i,
    {
        proof {
            assert(v@.take(i + 1).drop_last() =~= v@.take(i as int));
        }
        if v[i].variant == private {
            let a = v[i].ip_address.clone();
            proof {
                assert(strings_view(out@.push(a)) =~= strings_view(out@).push(a@));
            }
            out.push(a);
        }
        assert(strings_view(out@) =~= start + private_addrs(v@.take(i + 1)));
        i = i + 1;
    }
    assert(v@.take(v@.len() as int) =~= v@);
}

/// The private IPv4 addresses of the droplets in `region` (of all of them
/// where no region is given), in order; public and IPv6 addresses are left out.
pub fn droplet_addrs(v: &Vec<Droplet>, region: Option<&String>) -> (r: Vec<String>)
    ensures
        strings_view(r@) == droplets_addrs(
            v@,
            match region {
                Some(s) => Some(s@),
                None => None,
            },
        ),
{
    let ghost reg = match region {
        Some(s) => Some(s@),
        None => None,
    };
    let mut out: Vec<String> = Vec::new();
    let mut i: usize = 0;
    assert(strings_view(out@) =~= droplets_addrs(v@.take(0), reg));
    while i < v.len()
        invariant
            i <= v@.len(),
            reg == match region {
                Some(s) => Some(s@),
                None => None::<Seq<char>>,
            },
            strings_view(out@) == droplets_addrs(v@.take(i as int), reg),
        decreases v@.len() - i,
    {
        proof {
            assert(v@.take(i + 1).drop_last() =~= v@.take(i as int));
        }
        let selected = match region {
            Some(r) => v[i].region.slug == *r,
            None => true,
        };
        if selected {
            push_private(&v[i].networks.v4, &mut out);
        }
        assert(strings_view(out@) =~= droplets_addrs(v@.take(i + 1), reg));
        i = i + 1;
    }
    assert(v@.take(v@.len() as int) =~= v@);
    out
}

impl Provider for DOProvider {
    type Inventory = Vec<Droplet>;

    open spec fn spec_addrs(&self, inventory: &Vec<Droplet>) -> Seq<Seq<char>> {
        droplets_addrs(inventory@, self@.region)
    }

    fn addrs(&self, inventory: &Vec<Droplet>) -> (r: Vec<String>) {
        droplet_addrs(inventory, self.region())
    }

    fn help() -> &'static str {
        "DigitalOcean:

	provider:  \"digitalocean\"
	region:    The DigitalOcean region to filter on
	tag_name:  The tag name to filter on
	api_token: The DigitalOcean API token to use
"
    }
}

/// Where the arguments hold no `api_token` and the environment holds no
/// token either, a configuration that is otherwise complete fails with
/// `api_token` missing.
pub proof fn lemma_do_token_missing(ps: Seq<ArgPair>)
    requires
        first_do_error(ps) is None,
        lookup(ps, "tag_name"@) is Some,
        forall|i: int| 0 <= i < ps.len() ==> (#[trigger] ps[i]).0 != "api_token"@,
    ensures
        do_config_spec(ps, None) == Err::<DoConfigView, _>(
            DiscoverErrorView::MissingArgument("api_token"@),
        ),
{
    lemma_lookup_absent(ps, "api_token"@);
}

proof fn lemma_droplets_addrs_concat(a: Seq<Droplet>, b: Seq<Droplet>, region: Option<Seq<char>>)
    ensures
        droplets_addrs(a + b, region) == droplets_addrs(a, region) + droplets_addrs(b, region),
    decreases b.len(),
{
    if b.len() == 0 {
        assert(a + b =~= a);
        assert(droplets_addrs(a, region) + droplets_addrs(b, region) =~= droplets_addrs(a, region));
    } else {
        lemma_droplets_addrs_concat(a, b.drop_last(), region);
        assert((a + b).drop_last() =~= a + b.drop_last());
        assert((a + b).last() == b.last());
        if in_region(b.last(), region) {
            assert(droplets_addrs(a, region) + droplets_addrs(b, region) =~= droplets_addrs(
                a,
                region,
            ) + droplets_addrs(b.drop_last(), region) + private_addrs(b.last().networks.v4@));
        }
    }
}

/// Wherever a droplet stands in the listing, it contributes its private IPv4
/// addresses where it is in the configured region, or where no region is
/// configured, and nothing otherwise; the others contribute as without it.
pub proof fn lemma_region_filter(
    before: Seq<Droplet>,
    d: Droplet,
    after: Seq<Droplet>,
    region: Option<Seq<char>>,
)
    ensures
        droplets_addrs(before + seq![d] + after, region) == droplets_addrs(before, region) + (
        if in_region(d, region) {
            private_addrs(d.networks.v4@)
        } else {
            Seq::empty()
        }) + droplets_addrs(after, region),
        region is None ==> in_region(d, region),
        region matches Some(r) && d.region.slug@ != r ==> !in_region(d, region),
{
    lemma_droplets_addrs_concat(before, seq![d], region);
    lemma_droplets_addrs_concat(before + seq![d], after, region);
    let one = seq![d];
    assert(one.drop_last() =~= Seq::<Droplet>::empty());
    assert(one.last() == d);
    assert(droplets_addrs(one.drop_last(), region) == Seq::<Seq<char>>::empty());
    if in_region(d, region) {
        assert(droplets_addrs(seq![d], region) =~= private_addrs(d.networks.v4@));
    } else {
        assert(droplets_addrs(seq![d], region) =~= Seq::<Seq<char>>::empty());
    }
}

} // verus!
