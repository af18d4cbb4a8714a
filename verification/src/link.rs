//! Links: absolute URLs as the crawler sees them.
//!
//! A [`Link`] carries a `url::Url` together with the plain values that the
//! crawler reads from it: its serialization, its domain and its fragment.
use vstd::prelude::*;

verus! {

#[verifier::external_type_specification]
#[verifier::external_body]
pub struct ExUrl(url::Url);

/// Why `url` refuses a URL: the kinds of `url::ParseError`.
#[derive(Debug, Clone, Copy, PartialEq, Eq, Structural)]
pub enum UrlParseError {
    EmptyHost,
    IdnaError,
    InvalidPort,
    InvalidIpv4Address,
    InvalidIpv6Address,
    InvalidDomainCharacter,
    RelativeUrlWithoutBase,
    RelativeUrlWithCannotBeABaseBase,
    SetHostOnCannotBeABaseUrl,
    Overflow,
    /// A kind of `url::ParseError` that this list does not have (the type is
    /// open to new kinds).
    Other,
}

impl UrlParseError {
    /// The text that `url` shows for this kind of error (its `Display`).
    pub open spec fn text(self) -> Seq<char> {
        match self {
            UrlParseError::EmptyHost => "empty host"@,
            UrlParseError::IdnaError => "invalid international domain name"@,
            UrlParseError::InvalidPort => "invalid port number"@,
            UrlParseError::InvalidIpv4Address => "invalid IPv4 address"@,
            UrlParseError::InvalidIpv6Address => "invalid IPv6 address"@,
            UrlParseError::InvalidDomainCharacter => "invalid domain character"@,
            UrlParseError::RelativeUrlWithoutBase => "relative URL without a base"@,
            UrlParseError::RelativeUrlWithCannotBeABaseBase => "relative URL with a cannot-be-a-base base"@,
            UrlParseError::SetHostOnCannotBeABaseUrl => "a cannot-be-a-base URL doesn\u{2019}t have a host to set"@,
            UrlParseError::Overflow => "URLs more than 4 GB are not supported"@,
            UrlParseError::Other => "unknown URL error"@,
        }
    }

    /// The text that `url` shows for this kind of error.
    pub fn as_str(&self) -> (r: &'static str)
        ensures
            r@ == self.text(),
    {
        match self {
            UrlParseError::EmptyHost => "empty host",
            UrlParseError::IdnaError => "invalid international domain name",
            UrlParseError::InvalidPort => "invalid port number",
            UrlParseError::InvalidIpv4Address => "invalid IPv4 address",
            UrlParseError::InvalidIpv6Address => "invalid IPv6 address",
            UrlParseError::InvalidDomainCharacter => "invalid domain character",
            UrlParseError::RelativeUrlWithoutBase => "relative URL without a base",
            UrlParseError::RelativeUrlWithCannotBeABaseBase => "relative URL with a cannot-be-a-base base",
            UrlParseError::SetHostOnCannotBeABaseUrl => "a cannot-be-a-base URL doesn\u{2019}t have a host to set",
            UrlParseError::Overflow => "URLs more than 4 GB are not supported",
            UrlParseError::Other => "unknown URL error",
        }
    }
}

/// What `url::Url::parse` gives for `input`: the serialization of the URL,
/// or the text (`Display`) of the `url::ParseError` with which it refuses
/// `input`.
pub uninterp spec fn parsed_url(input: Seq<char>) -> Result<Seq<char>, Seq<char>>;

/// The kind of a `url::ParseError` whose text is `t` (`Other` for a text
/// that no kind in [`UrlParseError`] has).
pub open spec fn error_kind(t: Seq<char>) -> UrlParseError {
    if t == UrlParseError::EmptyHost.text() {
        UrlParseError::EmptyHost
    } else if t == UrlParseError::IdnaError.text() {
        UrlParseError::IdnaError
    } else if t == UrlParseError::InvalidPort.text() {
        UrlParseError::InvalidPort
    } else if t == UrlParseError::InvalidIpv4Address.text() {
        UrlParseError::InvalidIpv4Address
    } else if t == UrlParseError::InvalidIpv6Address.text() {
        UrlParseError::InvalidIpv6Address
    } else if t == UrlParseError::InvalidDomainCharacter.text() {
        UrlParseError::InvalidDomainCharacter
    } else if t == UrlParseError::RelativeUrlWithoutBase.text() {
        UrlParseError::RelativeUrlWithoutBase
    } else if t == UrlParseError::RelativeUrlWithCannotBeABaseBase.text() {
        UrlParseError::RelativeUrlWithCannotBeABaseBase
    } else if t == UrlParseError::SetHostOnCannotBeABaseUrl.text() {
        UrlParseError::SetHostOnCannotBeABaseUrl
    } else if t == UrlParseError::Overflow.text() {
        UrlParseError::Overflow
    } else {
        UrlParseError::Other
    }
}

/// Each kind of `url::ParseError` is recognised by its own text: the texts
/// of the kinds are all different, so reading a kind's text back gives that
/// kind.
pub proof fn law_error_kind_reads_back_each_kind(k: UrlParseError)
    ensures
        error_kind(k.text()) == k,
{
    reveal_strlit("empty host");
    reveal_strlit("invalid international domain name");
    reveal_strlit("invalid port number");
    reveal_strlit("invalid IPv4 address");
    reveal_strlit("invalid IPv6 address");
    reveal_strlit("invalid domain character");
    reveal_strlit("relative URL without a base");
    reveal_strlit("relative URL with a cannot-be-a-base base");
    reveal_strlit("a cannot-be-a-base URL doesn\u{2019}t have a host to set");
    reveal_strlit("URLs more than 4 GB are not supported");
    reveal_strlit("unknown URL error");
    let v4 = UrlParseError::InvalidIpv4Address.text();
    let v6 = UrlParseError::InvalidIpv6Address.text();
    assert(v4[11] != v6[11]);
    assert(v4 != v6);
    let ts = seq![
        UrlParseError::EmptyHost.text(),
        UrlParseError::IdnaError.text(),
        UrlParseError::InvalidPort.text(),
        UrlParseError::InvalidIpv4Address.text(),
        UrlParseError::InvalidIpv6Address.text(),
        UrlParseError::InvalidDomainCharacter.text(),
        UrlParseError::RelativeUrlWithoutBase.text(),
        UrlParseError::RelativeUrlWithCannotBeABaseBase.text(),
        UrlParseError::SetHostOnCannotBeABaseUrl.text(),
        UrlParseError::Overflow.text(),
        UrlParseError::Other.text(),
    ];
    assert(ts[0].len() == 10);
    assert(ts[1].len() == 33);
    assert(ts[2].len() == 19);
    assert(ts[3].len() == 20);
    assert(ts[4].len() == 20);
    assert(ts[5].len() == 24);
    assert(ts[6].len() == 27);
    assert(ts[7].len() == 41);
    assert(ts[8].len() == 49);
    assert(ts[9].len() == 37);
    assert(ts[10].len() == 17);
}

/// The kind of the `url::ParseError` whose text is `t`.
pub fn error_kind_of(t: &str) -> (r: UrlParseError)
    ensures
        r == error_kind(t@),
{
    let s: String = t.to_owned();
    let kinds: [UrlParseError; 10] = [
        UrlParseError::EmptyHost,
        UrlParseError::IdnaError,
        UrlParseError::InvalidPort,
        UrlParseError::InvalidIpv4Address,
        UrlParseError::InvalidIpv6Address,
        UrlParseError::InvalidDomainCharacter,
        UrlParseError::RelativeUrlWithoutBase,
        UrlParseError::RelativeUrlWithCannotBeABaseBase,
        UrlParseError::SetHostOnCannotBeABaseUrl,
        UrlParseError::Overflow,
    ];
    for i in 0..10
        invariant
            s@ == t@,
            kinds@ == seq![
                UrlParseError::EmptyHost,
                UrlParseError::IdnaError,
                UrlParseError::InvalidPort,
                UrlParseError::InvalidIpv4Address,
                UrlParseError::InvalidIpv6Address,
                UrlParseError::InvalidDomainCharacter,
                UrlParseError::RelativeUrlWithoutBase,
                UrlParseError::RelativeUrlWithCannotBeABaseBase,
                UrlParseError::SetHostOnCannotBeABaseUrl,
                UrlParseError::Overflow,
            ],
            forall|j: int| 0 <= j < i ==> t@ != (#[trigger] kinds@[j]).text(),
    {
        let k = kinds[i];
        let text: String = k.as_str().to_owned();
        if s == text {
            return k;
        }
    }
    UrlParseError::Other
}

/// The serialization of the URL that `url::Url::join` makes of `input`
/// against the URL serialized as `base`, or `None` where it refuses `input`.
pub uninterp spec fn joined_url(base: Seq<char>, input: Seq<char>) -> Option<Seq<char>>;

/// What `url::Url::domain` gives for the URL serialized as `serialization`.
pub uninterp spec fn url_domain(serialization: Seq<char>) -> Option<Seq<char>>;

/// The fragment of the URL serialized as `s`: what follows its first `#`.
/// (`url` percent-encodes `#` everywhere before the fragment, so the first
/// `#` of a serialization starts its fragment.)
pub open spec fn fragment_of(s: Seq<char>) -> Option<Seq<char>> {
    match s.index_of_first('#') {
        Some(i) => Some(s.skip(i + 1)),
        None => None,
    }
}

/// The serialization `s` without its fragment: what precedes its first `#`.
pub open spec fn page_key_of(s: Seq<char>) -> Seq<char> {
    match s.index_of_first('#') {
        Some(i) => s.take(i),
        None => s,
    }
}

/// Tells whether the URL serialized as `s` has an opaque path (is "cannot be
/// a base"): what follows the `:` that ends its scheme does not start with `/`.
pub open spec fn has_opaque_path(s: Seq<char>) -> bool {
    match s.index_of_first(':') {
        Some(c) => !(c + 1 < s.len() && s[c + 1] == '/'),
        None => true,
    }
}

/// `s` without its trailing spaces.
pub open spec fn trim_trailing_spaces(s: Seq<char>) -> Seq<char>
    decreases s.len(),
{
    if s.len() > 0 && s.last() == ' ' {
        trim_trailing_spaces(s.drop_last())
    } else {
        s
    }
}

/// The plain values of a link.
pub struct LinkView {
    pub serialization: Seq<char>,
    pub domain: Option<Seq<char>>,
    pub fragment: Option<Seq<char>>,
}

/// An absolute URL.
#[derive(Debug)]
pub struct Link {
    url: url::Url,
    serialization: String,
    domain: Option<String>,
    fragment: Option<String>,
}

impl Link {
    /// Every link is consistent: it is made only from what `url` gives.
    #[verifier::type_invariant]
    pub open spec fn inv(self) -> bool {
        self@.consistent()
    }
}

impl View for Link {
    type V = LinkView;

    closed spec fn view(&self) -> LinkView {
        LinkView {
            serialization: self.serialization@,
            domain: self.domain.deep_view(),
            fragment: self.fragment.deep_view(),
        }
    }
}

/// `Clone` of `url::Url`: a copy of the URL. Nothing is stated of the copy,
/// which Verus sees as opaque.
pub assume_specification[ <url::Url as Clone>::clone ](u: &url::Url) -> url::Url;

impl Clone for Link {
    fn clone(&self) -> (r: Self)
        ensures
            r@ == self@,
    {
        proof {
            use_type_invariant(self);
        }
        let domain = match &self.domain {
            Some(d) => Some(d.clone()),
            None => None,
        };
        let fragment = match &self.fragment {
            Some(f) => Some(f.clone()),
            None => None,
        };
        Link {
            url: self.url.clone(),
            serialization: self.serialization.clone(),
            domain,
            fragment,
        }
    }
}

impl LinkView {
    /// The domain and the fragment are those of the serialization, and a URL
    /// with a domain has a path that is not opaque.
    pub open spec fn consistent(self) -> bool {
        &&& self.domain == url_domain(self.serialization)
        &&& self.fragment == fragment_of(self.serialization)
        &&& self.domain is Some ==> !has_opaque_path(self.serialization)
    }

    /// The serialization without its fragment.
    pub open spec fn page_key(self) -> Seq<char> {
        page_key_of(self.serialization)
    }

    /// The link as it stands once its fragment is removed.
    pub open spec fn without_fragment(self) -> LinkView {
        LinkView { serialization: self.page_key(), domain: self.domain, fragment: None }
    }
}

/// The view of a link serialized as `serialization`: its domain is what `url`
/// reads from that serialization, its fragment what follows the first `#`.
pub open spec fn link_view(serialization: Seq<char>) -> LinkView {
    LinkView {
        serialization,
        domain: url_domain(serialization),
        fragment: fragment_of(serialization),
    }
}

/// Parses `input` with `url::Url::parse`, and reads the serialization
/// (`as_str`), `domain` and `fragment` of the URL it gives, or the text
/// (`Display`) of its error.
/// Claimed: the named result; domain equal to the name applied to the
/// serialization; fragment equal to what follows the first `#` (from the
/// source of `fragment` and the percent-encoding of `#` before it); and a
/// URL with a domain has a host after `scheme://`, so its path is not opaque.
#[verifier::external_body]
fn parse_url(input: &str) -> (r: Result<Link, String>)
    ensures
        r is Ok <==> parsed_url(input@) is Ok,
        r matches Ok(l) ==> l@.serialization == parsed_url(input@)->Ok_0,
        r matches Err(t) ==> t@ == parsed_url(input@)->Err_0,
        r matches Ok(l) ==> l@.domain == url_domain(l@.serialization),
        r matches Ok(l) ==> l@.fragment == fragment_of(l@.serialization),
        r matches Ok(l) ==> (l@.domain is Some ==> !has_opaque_path(l@.serialization)),
{
    match url::Url::parse(input) {
        Ok(url) => Ok(Link {
            serialization: url.as_str().to_string(),
            domain: url.domain().map(|d| d.to_string()),
            fragment: url.fragment().map(|f| f.to_string()),
            url,
        }),
        Err(e) => Err(e.to_string()),
    }
}

/// Joins `input` against `base` with `url::Url::join`, and reads the
/// serialization, domain and fragment of the URL it gives.
/// Claimed: success exactly where the named join succeeds, a serialization
/// equal to the named result, and the same facts as for `parse_url` on the
/// domain and the fragment. The error itself is dropped.
#[verifier::external_body]
fn join_url(base: &Link, input: &str) -> (r: Option<Link>)
    ensures
        r is Some <==> joined_url(base@.serialization, input@) is Some,
        r matches Some(l) ==> l@.serialization == joined_url(base@.serialization, input@)->0,
        r matches Some(l) ==> l@.domain == url_domain(l@.serialization),
        r matches Some(l) ==> l@.fragment == fragment_of(l@.serialization),
        r matches Some(l) ==> (l@.domain is Some ==> !has_opaque_path(l@.serialization)),
{
    match base.url.join(input) {
        Ok(url) => Some(Link {
            serialization: url.as_str().to_string(),
            domain: url.domain().map(|d| d.to_string()),
            fragment: url.fragment().map(|f| f.to_string()),
            url,
        }),
        Err(_) => None,
    }
}

/// Removes the fragment of a copy of `link`'s URL with
/// `url::Url::set_fragment(None)`, and reads the result back.
/// Claimed, from the source of `set_fragment` (and of
/// `strip_trailing_spaces_from_opaque_path`, which it calls): the fragment
/// is gone and the domain is kept; the serialization is cut just before the
/// first `#`; a URL with an opaque path and no query then also loses its
/// trailing spaces.
#[verifier::external_body]
fn remove_fragment(link: &Link) -> (r: Link)
    ensures
        r@.fragment is None,
        r@.domain == link@.domain,
        r@.domain == url_domain(r@.serialization),
        r@.fragment == fragment_of(r@.serialization),
        !has_opaque_path(link@.serialization) ==> r@.serialization == link@.page_key(),
        has_opaque_path(link@.serialization) && link@.page_key().contains('?')
            ==> r@.serialization == link@.page_key(),
        has_opaque_path(link@.serialization) && !link@.page_key().contains('?')
            ==> r@.serialization == trim_trailing_spaces(link@.page_key()),
{
    let mut url = link.url.clone();
    url.set_fragment(None);
    Link {
        serialization: url.as_str().to_string(),
        domain: url.domain().map(|d| d.to_string()),
        fragment: url.fragment().map(|f| f.to_string()),
        url,
    }
}

impl Link {
    /// Parses an absolute URL.
    pub fn parse(input: &str) -> (r: Result<Link, UrlParseError>)
        ensures
            r is Ok <==> parsed_url(input@) is Ok,
            r matches Ok(l) ==> l@.serialization == parsed_url(input@)->Ok_0 && l@.consistent(),
            r matches Err(e) ==> e == error_kind(parsed_url(input@)->Err_0),
    {
        match parse_url(input) {
            Ok(l) => Ok(l),
            Err(t) => Err(error_kind_of(t.as_str())),
        }
    }

    /// Resolves `input` (absolute or relative) against this link.
    pub fn join(&self, input: &str) -> (r: Option<Link>)
        ensures
            r is Some <==> joined_url(self@.serialization, input@) is Some,
            r matches Some(l) ==> l@.serialization == joined_url(self@.serialization, input@)->0
                && l@.consistent(),
    {
        join_url(self, input)
    }

    /// The same link without its fragment (for a URL with an opaque path
    /// and no query, also without trailing spaces).
    pub fn without_fragment(&self) -> (r: Link)
        ensures
            r@.fragment is None,
            r@.domain == self@.domain,
            r@.domain == url_domain(r@.serialization),
            r@.fragment == fragment_of(r@.serialization),
            !has_opaque_path(self@.serialization) ==> r@ == self@.without_fragment(),
            has_opaque_path(self@.serialization) && self@.page_key().contains('?') ==> r@
                == self@.without_fragment(),
            has_opaque_path(self@.serialization) && !self@.page_key().contains('?')
                ==> r@.serialization == trim_trailing_spaces(self@.page_key()),
    {
        remove_fragment(self)
    }

    /// Tells whether this link and `other` have the same serialization (the
    /// equality of `url::Url`).
    pub fn same_as(&self, other: &Link) -> (r: bool)
        ensures
            r == (self@.serialization == other@.serialization),
    {
        self.serialization == other.serialization
    }

    /// The serialization of this link.
    pub fn as_str(&self) -> (r: &str)
        ensures
            r@ == self@.serialization,
    {
        self.serialization.as_str()
    }

    /// The serialization of this link, as an owned string.
    pub fn into_string(self) -> (r: String)
        ensures
            r@ == self@.serialization,
    {
        self.serialization
    }

    /// The domain of this link, where its host is a domain name.
    pub fn domain(&self) -> (r: Option<&str>)
        ensures
            r matches Some(d) ==> self@.domain == Some(d@),
            r is None ==> self@.domain is None,
    {
        match &self.domain {
            Some(d) => Some(d.as_str()),
            None => None,
        }
    }

    /// The fragment of this link, if it has one.
    pub fn fragment(&self) -> (r: Option<&str>)
        ensures
            r matches Some(f) ==> self@.fragment == Some(f@),
            r is None ==> self@.fragment is None,
    {
        match &self.fragment {
            Some(f) => Some(f.as_str()),
            None => None,
        }
    }
}

/// Tells whether `url` has the domain `domain`.
pub fn is_same_domain(domain: &str, url: &Link) -> (r: bool)
    ensures
        r == (url@.domain == Some(domain@)),
{
    match &url.domain {
        Some(d) => {
            let wanted: String = domain.to_owned();
            *d == wanted
        },
        None => false,
    }
}

} // verus!
