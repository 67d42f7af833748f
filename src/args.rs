use vstd::prelude::*;

use crate::errors::{DiscoverError, DiscoverErrorView};

verus! {

/// A pair of argument key and value, as character sequences.
pub type ArgPair = (Seq<char>, Seq<char>);

/// The character sequences of a vector of strings.
pub open spec fn strings_view(v: Seq<String>) -> Seq<Seq<char>> {
    v.map_values(|s: String| s@)
}

/// The character sequence of an optional string.
pub open spec fn opt_view(o: Option<String>) -> Option<Seq<char>> {
    match o {
        Some(s) => Some(s@),
        None => None,
    }
}

/// The character sequences of a vector of key/value string pairs.
pub open spec fn pairs_view(v: Seq<(String, String)>) -> Seq<ArgPair> {
    v.map_values(|p: (String, String)| (p.0@, p.1@))
}

// ---------------------------------------------------------------------------
// Whitespace trimming and splitting into tokens
// ---------------------------------------------------------------------------

/// The characters of Unicode's `White_Space` property.
pub open spec fn is_white_space(c: char) -> bool {
    ('\u{9}' <= c && c <= '\u{d}') || c == ' ' || c == '\u{85}' || c == '\u{a0}'
        || c == '\u{1680}' || ('\u{2000}' <= c && c <= '\u{200a}') || c == '\u{2028}'
        || c == '\u{2029}' || c == '\u{202f}' || c == '\u{205f}' || c == '\u{3000}'
}

/// `s` without its leading whitespace.
pub open spec fn trim_start(s: Seq<char>) -> Seq<char>
    decreases s.len(),
{
    if s.len() > 0 && is_white_space(s[0]) {
        trim_start(s.drop_first())
    } else {
        s
    }
}

/// `s` without its trailing whitespace.
pub open spec fn trim_end(s: Seq<char>) -> Seq<char>
    decreases s.len(),
{
    if s.len() > 0 && is_white_space(s.last()) {
        trim_end(s.drop_last())
    } else {
        s
    }
}

/// `s` without leading and trailing whitespace.
pub open spec fn trimmed(s: Seq<char>) -> Seq<char> {
    trim_end(trim_start(s))
}

/// The pieces of `s` between runs of whitespace, with a trailing empty piece
/// where `s` ends in whitespace. A string without leading or trailing
/// whitespace gives its non-empty words, and the empty string one empty piece.
pub open spec fn tokens(s: Seq<char>) -> Seq<Seq<char>>
    decreases s.len(),
{
    if s.len() == 0 {
        seq![Seq::empty()]
    } else {
        let t = tokens(s.drop_last());
        if is_white_space(s.last()) {
            if t.last().len() == 0 {
                t
            } else {
                t.push(Seq::empty())
            }
        } else {
            t.update(t.len() - 1, t.last().push(s.last()))
        }
    }
}

proof fn lemma_tokens_nonempty(s: Seq<char>)
    ensures
        tokens(s).len() >= 1,
    decreases s.len(),
{
    if s.len() > 0 {
        lemma_tokens_nonempty(s.drop_last());
    }
}

/// Decides whether `c` is whitespace in the sense of [`is_white_space`].
pub fn is_white_space_char(c: char) -> (r: bool)
    ensures
        r == is_white_space(c),
{
    ('\u{9}' <= c && c <= '\u{d}') || c == ' ' || c == '\u{85}' || c == '\u{a0}'
        || c == '\u{1680}' || ('\u{2000}' <= c && c <= '\u{200a}') || c == '\u{2028}'
        || c == '\u{2029}' || c == '\u{202f}' || c == '\u{205f}' || c == '\u{3000}'
}

/// `s` without leading and trailing whitespace.
pub fn trim(s: &str) -> (r: &str)
    ensures
        r@ == trimmed(s@),
{
    let n = s.unicode_len();
    let mut a: usize = 0;
    assert(s@.subrange(0, n as int) =~= s@);
    while a < n && is_white_space_char(s.get_char(a))
        invariant
            n == s@.len(),
            a <= n,
            trim_start(s@) == trim_start(s@.subrange(a as int, n as int)),
        decreases n - a,
    {
        assert(s@.subrange(a as int, n as int).drop_first() =~= s@.subrange(a + 1, n as int));
        a = a + 1;
    }
    assert(trim_start(s@) == s@.subrange(a as int, n as int));
    let mut b: usize = n;
    while b > a && is_white_space_char(s.get_char(b - 1))
        invariant
            n == s@.len(),
            a <= b <= n,
            trim_start(s@) == s@.subrange(a as int, n as int),
            trimmed(s@) == trim_end(s@.subrange(a as int, b as int)),
        decreases b - a,
    {
        assert(s@.subrange(a as int, b as int).drop_last() =~= s@.subrange(a as int, b - 1));
        b = b - 1;
    }
    s.substring_char(a, b)
}

/// Splits `s` at every run of whitespace, as [`tokens`] does.
pub fn split_whitespace(s: &str) -> (r: Vec<String>)
    ensures
        strings_view(r@) == tokens(s@),
{
    let n = s.unicode_len();
    let mut out: Vec<String> = Vec::new();
    let mut start: usize = 0;
    let mut i: usize = 0;
    assert(s@.take(0) =~= Seq::<char>::empty());
    assert(strings_view(out@).push(s@.subrange(0, 0)) =~= seq![Seq::<char>::empty()]);
    while i < n
        invariant
            n == s@.len(),
            start <= i <= n,
            tokens(s@.take(i as int)) == strings_view(out@).push(
                s@.subrange(start as int, i as int),
            ),
        decreases n - i,
    {
        let c = s.get_char(i);
        proof {
            let p = s@.take(i as int);
            let q = s@.take(i + 1);
            assert(q.drop_last() =~= p);
            assert(q.last() == c);
            lemma_tokens_nonempty(p);
        }
        if is_white_space_char(c) && start == i {
            proof {
                assert(s@.subrange(start as int, i as int) =~= Seq::<char>::empty());
                assert(s@.subrange(i + 1, i + 1) =~= Seq::<char>::empty());
            }
            start = i + 1;
        } else if is_white_space_char(c) {
            let piece = String::from_str(s.substring_char(start, i));
            proof {
                assert(strings_view(out@.push(piece)) =~= strings_view(out@).push(piece@));
                assert(s@.subrange(i + 1, i + 1) =~= Seq::<char>::empty());
            }
            out.push(piece);
            start = i + 1;
        } else {
            proof {
                assert(s@.subrange(start as int, i + 1) =~= s@.subrange(
                    start as int,
                    i as int,
                ).push(c));
                assert(strings_view(out@).push(s@.subrange(start as int, i as int)).update(
                    out@.len() as int,
                    s@.subrange(start as int, i + 1),
                ) =~= strings_view(out@).push(s@.subrange(start as int, i + 1)));
            }
        }
        i = i + 1;
    }
    let last = String::from_str(s.substring_char(start, n));
    proof {
        assert(s@.take(n as int) =~= s@);
        assert(strings_view(out@.push(last)) =~= strings_view(out@).push(last@));
    }
    out.push(last);
    out
}

// ---------------------------------------------------------------------------
// Tokens of the form key=value
// ---------------------------------------------------------------------------

/// The position of the first `=` in `t`, or `t.len()` where it has none.
pub open spec fn first_eq(t: Seq<char>) -> int
    decreases t.len(),
{
    if t.len() == 0 {
        0
    } else if t[0] == '=' {
        0
    } else {
        1 + first_eq(t.drop_first())
    }
}

/// The part of `t` before its first `=`; the whole of `t` where it has none.
pub open spec fn token_key(t: Seq<char>) -> Seq<char> {
    t.take(first_eq(t))
}

/// The part of `t` after its first `=`.
pub open spec fn token_value(t: Seq<char>) -> Seq<char> {
    t.skip(first_eq(t) + 1)
}

/// `t` holds an `=` with at least one character after the first one.
pub open spec fn well_formed_token(t: Seq<char>) -> bool {
    first_eq(t) + 1 < t.len()
}

/// The text that explains a malformed argument.
pub open spec fn malformed_reason() -> Seq<char> {
    "Expected an argument on the format: key=value"@
}

/// No two pairs of `ps` have the same key.
pub open spec fn unique_keys(ps: Seq<ArgPair>) -> bool {
    forall|i: int, j: int| 0 <= i < j < ps.len() ==> (#[trigger] ps[i]).0 != (#[trigger] ps[j]).0
}

/// Some pair of `ps` has key `k`.
pub open spec fn has_key(ps: Seq<ArgPair>, k: Seq<char>) -> bool {
    exists|i: int| 0 <= i < ps.len() && #[trigger] ps[i].0 == k
}

/// The value of the last pair of `ps` whose key is `k`.
pub open spec fn lookup(ps: Seq<ArgPair>, k: Seq<char>) -> Option<Seq<char>>
    decreases ps.len(),
{
    if ps.len() == 0 {
        None
    } else if ps.last().0 == k {
        Some(ps.last().1)
    } else {
        lookup(ps.drop_last(), k)
    }
}

/// The pairs that the tokens `ts` give, taken in order; the first token that
/// is malformed, or whose key was seen before, decides the error.
pub open spec fn collect_pairs(ts: Seq<Seq<char>>) -> Result<Seq<ArgPair>, DiscoverErrorView>
    decreases ts.len(),
{
    if ts.len() == 0 {
        Ok(Seq::empty())
    } else {
        match collect_pairs(ts.drop_last()) {
            Err(e) => Err(e),
            Ok(ps) => {
                let t = ts.last();
                if !well_formed_token(t) {
                    Err(DiscoverErrorView::MalformedArgument(token_key(t), malformed_reason()))
                } else if has_key(ps, token_key(t)) {
                    Err(DiscoverErrorView::DuplicateArgument(token_key(t)))
                } else {
                    Ok(ps.push((token_key(t), token_value(t))))
                }
            },
        }
    }
}

proof fn lemma_first_eq(t: Seq<char>, i: int)
    requires
        0 <= i <= t.len(),
        forall|j: int| 0 <= j < i ==> t[j] != '=',
        i == t.len() || t[i] == '=',
    ensures
        first_eq(t) == i,
    decreases i,
{
    if i > 0 {
        assert(t[0] != '=');
        lemma_first_eq(t.drop_first(), i - 1);
    }
}

/// Splits a token at its first `=` into key and value; fails, naming the
/// key (the whole token where it has no `=`), where the value is missing or empty.
pub fn split_token(t: &str) -> (r: Result<(String, String), DiscoverError>)
    ensures
        well_formed_token(t@) ==> (r matches Ok(p) && p.0@ == token_key(t@) && p.1@
            == token_value(t@)),
        !well_formed_token(t@) ==> (r matches Err(e) && e@
            == DiscoverErrorView::MalformedArgument(token_key(t@), malformed_reason())),
{
    let n = t.unicode_len();
    let mut i: usize = 0;
    while i < n && t.get_char(i) != '='
        invariant
            n == t@.len(),
            i <= n,
            forall|j: int| 0 <= j < i ==> t@[j] != '=',
        decreases n - i,
    {
        i = i + 1;
    }
    proof {
        lemma_first_eq(t@, i as int);
    }
    let key = String::from_str(t.substring_char(0, i));
    if n - i <= 1 {
        Err(
            DiscoverError::MalformedArgument(
                key,
                String::from_str("Expected an argument on the format: key=value"),
            ),
        )
    } else {
        let value = String::from_str(t.substring_char(i + 1, n));
        Ok((key, value))
    }
}

// ---------------------------------------------------------------------------
// Providers and parsed arguments
// ---------------------------------------------------------------------------

/// The providers that addresses can be discovered from.
#[derive(Debug, Clone, Copy, PartialEq, Eq, Structural)]
pub enum SupportedProvider {
    AWS,
    DigitalOcean,
}

/// The lowercase form of `s`, as Unicode's case mapping gives it.
pub uninterp spec fn lower_of(s: Seq<char>) -> Seq<char>;

/// Relies on `str::to_lowercase`: the Unicode lowercase mapping of `s`, which
/// depends on its characters alone.
#[verifier::external_body]
fn lowercase(s: &str) -> (r: String)
    ensures
        r@ == lower_of(s@),
{
    s.to_lowercase()
}

/// The provider whose name, in lowercase, is `name`.
pub open spec fn provider_named(name: Seq<char>) -> Option<SupportedProvider> {
    if name == "aws"@ {
        Some(SupportedProvider::AWS)
    } else if name == "digitalocean"@ {
        Some(SupportedProvider::DigitalOcean)
    } else {
        None
    }
}

impl SupportedProvider {
    /// The provider named `name`, which is expected in lowercase already.
    pub fn from_lowercase(name: &String) -> (r: Option<SupportedProvider>)
        ensures
            r == provider_named(name@),
    {
        let aws = String::from_str("aws");
        let digitalocean = String::from_str("digitalocean");
        if *name == aws {
            Some(SupportedProvider::AWS)
        } else if *name == digitalocean {
            Some(SupportedProvider::DigitalOcean)
        } else {
            None
        }
    }
}

/// What parsing the pairs `c` that the tokens gave comes to: the `provider`
/// key must be there, and name a supported provider in any letter case.
pub open spec fn resolve_provider(c: Result<Seq<ArgPair>, DiscoverErrorView>) -> Result<
    (Seq<ArgPair>, SupportedProvider),
    DiscoverErrorView,
> {
    match c {
        Err(e) => Err(e),
        Ok(ps) => match lookup(ps, "provider"@) {
            None => Err(DiscoverErrorView::MissingArgument("provider"@)),
            Some(v) => match provider_named(lower_of(v)) {
                None => Err(DiscoverErrorView::UnsupportedProvider(v)),
                Some(p) => Ok((ps, p)),
            },
        },
    }
}

/// What parsing the argument string `s` comes to.
pub open spec fn parse_spec(s: Seq<char>) -> Result<
    (Seq<ArgPair>, SupportedProvider),
    DiscoverErrorView,
> {
    resolve_provider(collect_pairs(tokens(trimmed(s))))
}

/// Validated arguments: the key/value pairs in the order they were given,
/// keys unique, and the provider that they name.
#[derive(Debug, Clone)]
pub struct ParsedArgs {
    inner: Vec<(String, String)>,
    provider: SupportedProvider,
}

impl View for ParsedArgs {
    type V = Seq<ArgPair>;

    closed spec fn view(&self) -> Seq<ArgPair> {
        pairs_view(self.inner@)
    }
}

/// The model of a parse result.
pub open spec fn parsed_view(r: Result<ParsedArgs, DiscoverError>) -> Result<
    (Seq<ArgPair>, SupportedProvider),
    DiscoverErrorView,
> {
    match r {
        Ok(a) => Ok((a@, a.spec_provider())),
        Err(e) => Err(e@),
    }
}

/// The position of the last pair of `pairs` with key `key`.
fn find_key(pairs: &Vec<(String, String)>, key: &String) -> (r: Option<usize>)
    ensures
        match r {
            Some(i) => i < pairs@.len() && lookup(pairs_view(pairs@), key@) == Some(
                pairs@[i as int].1@,
            ),
            None => lookup(pairs_view(pairs@), key@) is None,
        },
{
    let ghost pv = pairs_view(pairs@);
    let mut i: usize = pairs.len();
    assert(pv.take(i as int) =~= pv);
    while i > 0
        invariant
            i <= pairs@.len(),
            pv == pairs_view(pairs@),
            lookup(pv, key@) == lookup(pv.take(i as int), key@),
        decreases i,
    {
        assert(pv.take(i as int).drop_last() =~= pv.take(i - 1));
        if pairs[i - 1].0 == *key {
            return Some(i - 1);
        }
        i = i - 1;
    }
    None
}

impl ParsedArgs {
    /// The provider that the arguments name.
    pub closed spec fn spec_provider(&self) -> SupportedProvider {
        self.provider
    }

    /// The value given for `key`.
    pub fn get(&self, key: &str) -> (r: Option<&String>)
        ensures
            match r {
                Some(v) => lookup(self@, key@) == Some(v@),
                None => lookup(self@, key@) is None,
            },
    {
        let k = String::from_str(key);
        match find_key(&self.inner, &k) {
            Some(i) => Some(&self.inner[i].1),
            None => None,
        }
    }

    /// The provider that the arguments name.
    pub fn provider(&self) -> (r: &SupportedProvider)
        ensures
            *r == self.spec_provider(),
    {
        &self.provider
    }

    /// The key/value pairs, in the order they were given.
    pub fn into_pairs(self) -> (r: Vec<(String, String)>)
        ensures
            pairs_view(r@) == self@,
    {
        self.inner
    }

    /// Validates tokens of the form `key=value`: the first malformed or
    /// repeated one fails the whole, and the `provider` key must name a
    /// supported provider.
    pub fn try_from_tokens(value: Vec<String>) -> (r: Result<ParsedArgs, DiscoverError>)
        ensures
            parsed_view(r) == resolve_provider(collect_pairs(strings_view(value@))),
            r matches Ok(a) ==> unique_keys(a@),
    {
        let ghost ts = strings_view(value@);
        let mut inner: Vec<(String, String)> = Vec::new();
        let mut i: usize = 0;
        assert(ts.take(0) =~= Seq::<Seq<char>>::empty());
        assert(pairs_view(inner@) =~= Seq::<ArgPair>::empty());
        while i < value.len()
            invariant
                i <= value@.len(),
                ts == strings_view(value@),
                collect_pairs(ts.take(i as int)) == Ok::<Seq<ArgPair>, DiscoverErrorView>(
                    pairs_view(inner@),
                ),
                unique_keys(pairs_view(inner@)),
            decreases value@.len() - i,
        {
            proof {
                assert(ts.take(i + 1).drop_last() =~= ts.take(i as int));
            }
            let (key, val) = match split_token(value[i].as_str()) {
                Ok(p) => p,
                Err(e) => {
                    proof {
                        assert(collect_pairs(ts.take(i + 1)) == Err::<Seq<ArgPair>, _>(e@));
                        lemma_collect_err_extends(ts, i + 1);
                    }
                    return Err(e);
                },
            };
            assert(ts[i as int] == value@[i as int]@);
            assert(well_formed_token(ts[i as int]) && key@ == token_key(ts[i as int]) && val@
                == token_value(ts[i as int]));
            let mut j: usize = 0;
            while j < inner.len()
                invariant
                    i < value@.len(),
                    ts == strings_view(value@),
                    collect_pairs(ts.take(i as int)) == Ok::<Seq<ArgPair>, DiscoverErrorView>(
                        pairs_view(inner@),
                    ),
                    well_formed_token(ts[i as int]),
                    key@ == token_key(ts[i as int]),
                    ts.take(i + 1).drop_last() == ts.take(i as int),
                    unique_keys(pairs_view(inner@)),
                    j <= inner@.len(),
                    forall|m: int| 0 <= m < j ==> inner@[m].0@ != key@,
                decreases inner@.len() - j,
            {
                if inner[j].0 == key {
                    proof {
                        assert(pairs_view(inner@)[j as int].0 == key@);
                        assert(collect_pairs(ts.take(i + 1)) == Err::<Seq<ArgPair>, _>(
                            DiscoverErrorView::DuplicateArgument(key@),
                        ));
                        lemma_collect_err_extends(ts, i + 1);
                    }
                    return Err(DiscoverError::DuplicateArgument(key));
                }
                j = j + 1;
            }
            proof {
                let pv = pairs_view(inner@);
                assert(!has_key(pv, key@)) by {
                    if has_key(pv, key@) {
                        let m = choose|m: int| 0 <= m < pv.len() && #[trigger] pv[m].0 == key@;
                        assert(inner@[m].0@ == key@);
                    }
                }
                assert(pairs_view(inner@.push((key, val))) =~= pv.push((key@, val@)));
                let qv = pv.push((key@, val@));
                assert forall|a: int, b: int| 0 <= a < b < qv.len() implies (#[trigger] qv[a]).0
                    != (#[trigger] qv[b]).0 by {
                    if b == pv.len() {
                        assert(inner@[a].0@ != key@);
                    } else {
                        assert(qv[a] == pv[a] && qv[b] == pv[b]);
                    }
                }
            }
            inner.push((key, val));
            i = i + 1;
        }
        proof {
            assert(ts.take(value@.len() as int) =~= ts);
        }
        let pkey = String::from_str("provider");
        let provider = match find_key(&inner, &pkey) {
            None => {
                return Err(DiscoverError::MissingArgument(pkey));
            },
            Some(at) => {
                let lowered = lowercase(inner[at].1.as_str());
                match SupportedProvider::from_lowercase(&lowered) {
                    Some(p) => p,
                    None => {
                        return Err(DiscoverError::UnsupportedProvider(inner[at].1.clone()));
                    },
                }
            },
        };
        Ok(ParsedArgs { inner, provider })
    }

    /// Parses an argument string: surrounding whitespace is ignored, and the
    /// rest is split at runs of whitespace into `key=value` tokens (an
    /// input that is all whitespace gives one empty token).
    pub fn try_from(value: String) -> (r: Result<ParsedArgs, DiscoverError>)
        ensures
            parsed_view(r) == parse_spec(value@),
            r matches Ok(a) ==> unique_keys(a@),
    {
        let tokens = split_whitespace(trim(value.as_str()));
        ParsedArgs::try_from_tokens(tokens)
    }
}

/// An error among the first `k` tokens is the error of them all.
proof fn lemma_collect_err_extends(ts: Seq<Seq<char>>, k: int)
    requires
        0 <= k <= ts.len(),
        collect_pairs(ts.take(k)) is Err,
    ensures
        collect_pairs(ts) == collect_pairs(ts.take(k)),
    decreases ts.len() - k,
{
    if k < ts.len() {
        assert(ts.take(k + 1).drop_last() =~= ts.take(k));
        lemma_collect_err_extends(ts, k + 1);
    } else {
        assert(ts.take(k) =~= ts);
    }
}

// ---------------------------------------------------------------------------
// Laws of parsing
// ---------------------------------------------------------------------------

/// Every token of `ts` is `key=value` with a non-empty value.
pub open spec fn all_well_formed(ts: Seq<Seq<char>>) -> bool {
    forall|i: int| 0 <= i < ts.len() ==> well_formed_token(#[trigger] ts[i])
}

/// No two tokens of `ts` have the same key.
pub open spec fn distinct_keys(ts: Seq<Seq<char>>) -> bool {
    forall|i: int, j: int|
        0 <= i < j < ts.len() ==> token_key(#[trigger] ts[i]) != token_key(#[trigger] ts[j])
}

/// The key/value pairs of the tokens `ts`, in order.
pub open spec fn token_pairs(ts: Seq<Seq<char>>) -> Seq<ArgPair> {
    ts.map_values(|t: Seq<char>| (token_key(t), token_value(t)))
}

proof fn lemma_collect_well_formed(ts: Seq<Seq<char>>)
    requires
        all_well_formed(ts),
        distinct_keys(ts),
    ensures
        collect_pairs(ts) == Ok::<Seq<ArgPair>, DiscoverErrorView>(token_pairs(ts)),
    decreases ts.len(),
{
    if ts.len() > 0 {
        let init = ts.drop_last();
        assert(all_well_formed(init)) by {
            assert forall|i: int| 0 <= i < init.len() implies well_formed_token(
                #[trigger] init[i],
            ) by {
                assert(init[i] == ts[i]);
            }
        }
        assert(distinct_keys(init)) by {
            assert forall|i: int, j: int| 0 <= i < j < init.len() implies token_key(
                #[trigger] init[i],
            ) != token_key(#[trigger] init[j]) by {
                assert(init[i] == ts[i] && init[j] == ts[j]);
            }
        }
        lemma_collect_well_formed(init);
        let ps = token_pairs(init);
        let t = ts.last();
        assert(well_formed_token(ts[ts.len() - 1]));
        assert(!has_key(ps, token_key(t))) by {
            if has_key(ps, token_key(t)) {
                let m = choose|m: int| 0 <= m < ps.len() && #[trigger] ps[m].0 == token_key(t);
                assert(token_key(ts[m]) != token_key(ts[ts.len() - 1]));
            }
        }
        assert(token_pairs(ts) =~= ps.push((token_key(t), token_value(t))));
    } else {
        assert(token_pairs(ts) =~= Seq::<ArgPair>::empty());
    }
}

proof fn lemma_lookup_distinct(ps: Seq<ArgPair>, k: Seq<char>, i: int)
    requires
        0 <= i < ps.len(),
        ps[i].0 == k,
        forall|j: int| 0 <= j < ps.len() && j != i ==> (#[trigger] ps[j]).0 != k,
    ensures
        lookup(ps, k) == Some(ps[i].1),
    decreases ps.len(),
{
    if i < ps.len() - 1 {
        let init = ps.drop_last();
        assert forall|j: int| 0 <= j < init.len() && j != i implies (#[trigger] init[j]).0 != k by {
            assert(init[j] == ps[j]);
        }
        lemma_lookup_distinct(init, k, i);
    }
}

pub(crate) proof fn lemma_lookup_absent(ps: Seq<ArgPair>, k: Seq<char>)
    requires
        forall|j: int| 0 <= j < ps.len() ==> (#[trigger] ps[j]).0 != k,
    ensures
        lookup(ps, k) is None,
    decreases ps.len(),
{
    if ps.len() > 0 {
        let init = ps.drop_last();
        assert forall|j: int| 0 <= j < init.len() implies (#[trigger] init[j]).0 != k by {
            assert(init[j] == ps[j]);
        }
        lemma_lookup_absent(init, k);
    }
}

proof fn lemma_prefix_well_formed(ts: Seq<Seq<char>>, n: int)
    requires
        0 <= n <= ts.len(),
        forall|j: int| 0 <= j < n ==> well_formed_token(#[trigger] ts[j]),
        forall|a: int, b: int|
            0 <= a < b < n ==> token_key(#[trigger] ts[a]) != token_key(#[trigger] ts[b]),
    ensures
        collect_pairs(ts.take(n)) == Ok::<Seq<ArgPair>, DiscoverErrorView>(
            token_pairs(ts.take(n)),
        ),
{
    let pre = ts.take(n);
    assert forall|j: int| 0 <= j < pre.len() implies well_formed_token(#[trigger] pre[j]) by {
        assert(pre[j] == ts[j]);
    }
    assert forall|a: int, b: int| 0 <= a < b < pre.len() implies token_key(#[trigger] pre[a])
        != token_key(#[trigger] pre[b]) by {
        assert(pre[a] == ts[a] && pre[b] == ts[b]);
    }
    lemma_collect_well_formed(pre);
}

/// Where every token of `s` is `key=value` with a non-empty value, no two
/// tokens share a key, and the `provider` key names a supported provider in
/// any letter case, parsing succeeds, and the pairs are exactly the tokens'
/// keys and values, in order.
pub proof fn lemma_parse_well_formed(s: Seq<char>, i: int)
    requires
        all_well_formed(tokens(trimmed(s))),
        distinct_keys(tokens(trimmed(s))),
        0 <= i < tokens(trimmed(s)).len(),
        token_key(tokens(trimmed(s))[i]) == "provider"@,
        provider_named(lower_of(token_value(tokens(trimmed(s))[i]))) is Some,
    ensures
        parse_spec(s) matches Ok((ps, p)) && ps == token_pairs(tokens(trimmed(s))) && Some(p)
            == provider_named(lower_of(token_value(tokens(trimmed(s))[i]))),
{
    let ts = tokens(trimmed(s));
    lemma_collect_well_formed(ts);
    let ps = token_pairs(ts);
    assert forall|j: int| 0 <= j < ps.len() && j != i implies (#[trigger] ps[j]).0
        != "provider"@ by {
        if j < i {
            assert(token_key(ts[j]) != token_key(ts[i]));
        } else {
            assert(token_key(ts[i]) != token_key(ts[j]));
        }
    }
    lemma_lookup_distinct(ps, "provider"@, i);
}

/// The first token that is not `key=value` with a non-empty value fails the
/// parse, naming the token (or its part before `=`), unless an earlier token
/// repeated a key.
pub proof fn lemma_malformed_token(s: Seq<char>, i: int)
    requires
        0 <= i < tokens(trimmed(s)).len(),
        !well_formed_token(tokens(trimmed(s))[i]),
        forall|j: int| 0 <= j < i ==> well_formed_token(#[trigger] tokens(trimmed(s))[j]),
        forall|a: int, b: int|
            0 <= a < b < i ==> token_key(#[trigger] tokens(trimmed(s))[a]) != token_key(
                #[trigger] tokens(trimmed(s))[b],
            ),
    ensures
        parse_spec(s) == Err::<(Seq<ArgPair>, SupportedProvider), _>(
            DiscoverErrorView::MalformedArgument(
                token_key(tokens(trimmed(s))[i]),
                malformed_reason(),
            ),
        ),
{
    let ts = tokens(trimmed(s));
    lemma_prefix_well_formed(ts, i);
    assert(ts.take(i + 1).drop_last() =~= ts.take(i));
    lemma_collect_err_extends(ts, i + 1);
}

/// A key that a token repeats fails the parse with that key, whatever the
/// values, where the tokens up to the repetition are `key=value`.
pub proof fn lemma_duplicate_key(s: Seq<char>, i: int, j: int)
    requires
        0 <= i < j < tokens(trimmed(s)).len(),
        token_key(tokens(trimmed(s))[i]) == token_key(tokens(trimmed(s))[j]),
        forall|m: int| 0 <= m <= j ==> well_formed_token(#[trigger] tokens(trimmed(s))[m]),
        forall|a: int, b: int|
            0 <= a < b < j ==> token_key(#[trigger] tokens(trimmed(s))[a]) != token_key(
                #[trigger] tokens(trimmed(s))[b],
            ),
    ensures
        parse_spec(s) == Err::<(Seq<ArgPair>, SupportedProvider), _>(
            DiscoverErrorView::DuplicateArgument(token_key(tokens(trimmed(s))[j])),
        ),
{
    let ts = tokens(trimmed(s));
    lemma_prefix_well_formed(ts, j);
    let ps = token_pairs(ts.take(j));
    assert(ps[i].0 == token_key(ts[i]));
    assert(has_key(ps, token_key(ts[j])));
    assert(ts.take(j + 1).drop_last() =~= ts.take(j));
    assert(well_formed_token(ts[j]));
    lemma_collect_err_extends(ts, j + 1);
}

/// Well-formed arguments without a `provider` key fail with that key missing.
pub proof fn lemma_provider_missing(s: Seq<char>)
    requires
        all_well_formed(tokens(trimmed(s))),
        distinct_keys(tokens(trimmed(s))),
        forall|i: int|
            0 <= i < tokens(trimmed(s)).len() ==> token_key(#[trigger] tokens(trimmed(s))[i])
                != "provider"@,
    ensures
        parse_spec(s) == Err::<(Seq<ArgPair>, SupportedProvider), _>(
            DiscoverErrorView::MissingArgument("provider"@),
        ),
{
    let ts = tokens(trimmed(s));
    lemma_collect_well_formed(ts);
    let ps = token_pairs(ts);
    assert forall|j: int| 0 <= j < ps.len() implies (#[trigger] ps[j]).0 != "provider"@ by {
        assert(token_key(ts[j]) != "provider"@);
    }
    lemma_lookup_absent(ps, "provider"@);
}

/// Well-formed arguments whose `provider` value names no supported provider,
/// in any letter case, fail with that value.
pub proof fn lemma_provider_unsupported(s: Seq<char>, i: int)
    requires
        all_well_formed(tokens(trimmed(s))),
        distinct_keys(tokens(trimmed(s))),
        0 <= i < tokens(trimmed(s)).len(),
        token_key(tokens(trimmed(s))[i]) == "provider"@,
        provider_named(lower_of(token_value(tokens(trimmed(s))[i]))) is None,
    ensures
        parse_spec(s) == Err::<(Seq<ArgPair>, SupportedProvider), _>(
            DiscoverErrorView::UnsupportedProvider(token_value(tokens(trimmed(s))[i])),
        ),
{
    let ts = tokens(trimmed(s));
    lemma_collect_well_formed(ts);
    let ps = token_pairs(ts);
    assert forall|j: int| 0 <= j < ps.len() && j != i implies (#[trigger] ps[j]).0
        != "provider"@ by {
        if j < i {
            assert(token_key(ts[j]) != token_key(ts[i]));
        } else {
            assert(token_key(ts[i]) != token_key(ts[j]));
        }
    }
    lemma_lookup_distinct(ps, "provider"@, i);
}

} // verus!
