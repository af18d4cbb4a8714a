//! The links of an HTML page.
//!
//! A [`UrlScraper`] holds what the `scraper` crate finds in a page: the
//! `href` attribute of each `a` element, in the order in which it selects
//! them. The links of
//! the page are those attributes, resolved against the page's own URL,
//! leaving out attributes that are missing, that start with `?`, or that
//! cannot be resolved.
use vstd::prelude::*;
use crate::errors::BfError;
use crate::link::{joined_url, link_view, Link, LinkView};

verus! {

/// The `href` attribute of each `a` element of the HTML document `html`, in
/// the order in which `scraper`'s `Html::select` gives the elements (`None`
/// for an `a` element without `href`).
pub uninterp spec fn anchor_hrefs(html: Seq<char>) -> Seq<Option<Seq<char>>>;

/// Parses `text` with `scraper::Html::parse_document`, selects its `a`
/// elements with `scraper::Selector::parse("a")` and `Html::select`, and
/// reads each element's `href` with `Element::attr`.
/// Claimed: the result is the named sequence for `text`. The selector `"a"`
/// is valid, so the `expect` never fails.
#[verifier::external_body]
fn select_anchor_hrefs(text: &str) -> (r: Vec<Option<String>>)
    ensures
        r.deep_view() == anchor_hrefs(text@),
{
    let html = scraper::Html::parse_document(text);
    let selector = scraper::Selector::parse("a").expect("Could not create scraper Selector.");
    html.select(&selector).map(|element| element.value().attr("href").map(|h| h.to_string())).collect()
}

/// The link that the attribute `href` gives on the page `base`: none for a
/// missing attribute or one that starts with `?`, else the attribute joined
/// against `base` (none where the join fails).
pub open spec fn link_of_href(base: Seq<char>, href: Option<Seq<char>>) -> Option<Seq<char>> {
    match href {
        Some(h) => if h.len() > 0 && h[0] == '?' {
            None
        } else {
            joined_url(base, h)
        },
        None => None,
    }
}

/// The links that the attributes `hrefs` give on the page `base`, in order.
pub open spec fn scraped_links(base: Seq<char>, hrefs: Seq<Option<Seq<char>>>) -> Seq<Seq<char>>
    decreases hrefs.len(),
{
    if hrefs.len() == 0 {
        seq![]
    } else {
        let rest = scraped_links(base, hrefs.drop_first());
        match link_of_href(base, hrefs[0]) {
            Some(u) => seq![u] + rest,
            None => rest,
        }
    }
}

proof fn lemma_scraped_step(base: Seq<char>, hrefs: Seq<Option<Seq<char>>>, i: int)
    requires
        0 <= i < hrefs.len(),
    ensures
        scraped_links(base, hrefs.skip(i)) == match link_of_href(base, hrefs[i]) {
            Some(u) => seq![u] + scraped_links(base, hrefs.skip(i + 1)),
            None => scraped_links(base, hrefs.skip(i + 1)),
        },
{
    assert(hrefs.skip(i).drop_first() =~= hrefs.skip(i + 1));
}

/// What an anchor gives: nothing without `href`, nothing for an `href`
/// starting with `?`, and otherwise the `href` joined against the page's URL
/// (whatever its scheme or form), as `url` joins it.
pub proof fn law_link_of_href(base: Seq<char>, h: Seq<char>)
    ensures
        link_of_href(base, None) is None,
        h.len() > 0 && h[0] == '?' ==> link_of_href(base, Some(h)) is None,
        !(h.len() > 0 && h[0] == '?') ==> link_of_href(base, Some(h)) == joined_url(base, h),
{
}

proof fn lemma_filter_map_front<A, B>(s: Seq<A>, f: spec_fn(A) -> Option<B>)
    requires
        s.len() > 0,
    ensures
        s.filter_map(f) == match f(s[0]) {
            Some(b) => seq![b] + s.drop_first().filter_map(f),
            None => s.drop_first().filter_map(f),
        },
    decreases s.len(),
{
    if s.len() == 1 {
        assert(s.drop_first() =~= Seq::<A>::empty());
        assert(s.drop_last() =~= Seq::<A>::empty());
        assert(s.last() == s[0]);
    } else {
        let dl = s.drop_last();
        lemma_filter_map_front(dl, f);
        assert(dl.drop_first() =~= s.drop_first().drop_last());
        assert(s.drop_first().last() == s.last());
        assert(dl[0] == s[0]);
        match f(s[0]) {
            Some(b) => {
                match f(s.last()) {
                    Some(c) => {
                        assert(seq![b] + dl.drop_first().filter_map(f) + seq![c] =~= seq![b] + (
                        dl.drop_first().filter_map(f) + seq![c]));
                    },
                    None => {},
                }
            },
            None => {},
        }
    }
}

/// The links of a page are exactly what its anchors give (see
/// [`law_link_of_href`]), in the order of the anchors and once for each
/// anchor that gives one: every anchor whose `href` does not start with `?`
/// and joins gives a link.
pub proof fn law_scraped_links_are_what_anchors_give(base: Seq<char>, hrefs: Seq<Option<Seq<char>>>)
    ensures
        scraped_links(base, hrefs) == hrefs.filter_map(|h: Option<Seq<char>>| link_of_href(base, h)),
        forall|i: int|
            0 <= i < hrefs.len() && (#[trigger] hrefs[i]) is Some && !(hrefs[i]->0.len() > 0
                && hrefs[i]->0[0] == '?') && joined_url(base, hrefs[i]->0) is Some
                ==> scraped_links(base, hrefs).contains(joined_url(base, hrefs[i]->0)->0),
    decreases hrefs.len(),
{
    let f = |h: Option<Seq<char>>| link_of_href(base, h);
    if hrefs.len() > 0 {
        law_scraped_links_are_what_anchors_give(base, hrefs.drop_first());
        lemma_filter_map_front(hrefs, f);
        let all = scraped_links(base, hrefs);
        let rest = scraped_links(base, hrefs.drop_first());
        assert forall|i: int|
            0 <= i < hrefs.len() && (#[trigger] hrefs[i]) is Some && !(hrefs[i]->0.len() > 0
                && hrefs[i]->0[0] == '?') && joined_url(base, hrefs[i]->0) is Some
                implies all.contains(joined_url(base, hrefs[i]->0)->0) by {
            let u = joined_url(base, hrefs[i]->0)->0;
            if i == 0 {
                assert(link_of_href(base, hrefs[0]) == Some(u));
                assert(all[0] == u);
            } else {
                assert(hrefs.drop_first()[i - 1] == hrefs[i]);
                assert(rest.contains(u));
                let j = choose|j: int| 0 <= j < rest.len() && rest[j] == u;
                match link_of_href(base, hrefs[0]) {
                    Some(v) => {
                        assert(all[j + 1] == u);
                    },
                    None => {
                        assert(all[j] == u);
                    },
                }
            }
        }
    } else {
        assert(hrefs.filter_map(f) =~= Seq::<Seq<char>>::empty());
    }
}

/// Each link of a page comes from one of its anchors: it is an anchor's
/// `href`, not starting with `?`, joined against the page's URL (see
/// [`link_of_href`]); and a page has no more links than anchors.
pub proof fn law_links_come_from_anchors(base: Seq<char>, hrefs: Seq<Option<Seq<char>>>)
    ensures
        scraped_links(base, hrefs).len() <= hrefs.len(),
        forall|k: int|
            0 <= k < scraped_links(base, hrefs).len() ==> exists|i: int|
                0 <= i < hrefs.len() && link_of_href(base, #[trigger] hrefs[i]) == Some(
                    #[trigger] scraped_links(base, hrefs)[k],
                ),
    decreases hrefs.len(),
{
    if hrefs.len() > 0 {
        let tail = hrefs.drop_first();
        law_links_come_from_anchors(base, tail);
        let all = scraped_links(base, hrefs);
        let rest = scraped_links(base, tail);
        assert forall|k: int| 0 <= k < all.len() implies exists|i: int|
            0 <= i < hrefs.len() && link_of_href(base, #[trigger] hrefs[i]) == Some(
                #[trigger] all[k],
            ) by {
            match link_of_href(base, hrefs[0]) {
                Some(u) => {
                    if k == 0 {
                        assert(link_of_href(base, hrefs[0]) == Some(all[0]));
                    } else {
                        assert(all[k] == rest[k - 1]);
                        let i = choose|i: int|
                            0 <= i < tail.len() && link_of_href(base, #[trigger] tail[i]) == Some(
                                rest[k - 1],
                            );
                        assert(hrefs[i + 1] == tail[i]);
                    }
                },
                None => {
                    assert(all[k] == rest[k]);
                    let i = choose|i: int|
                        0 <= i < tail.len() && link_of_href(base, #[trigger] tail[i]) == Some(
                            rest[k],
                        );
                    assert(hrefs[i + 1] == tail[i]);
                },
            }
        }
    }
}

/// The anchors of one page, ready to give the page's links.
pub struct UrlScraper {
    url: Link,
    hrefs: Vec<Option<String>>,
}

impl UrlScraper {
    /// The page's own URL.
    pub closed spec fn base(&self) -> LinkView {
        self.url@
    }

    /// The `href` attributes of the page's anchors, in the order selected.
    pub closed spec fn hrefs(&self) -> Seq<Option<Seq<char>>> {
        self.hrefs.deep_view()
    }

    /// The links of the page, in the order of its anchors.
    pub open spec fn links_spec(&self) -> Seq<Seq<char>> {
        scraped_links(self.base().serialization, self.hrefs())
    }

    ///
    /// * `url` - url of the page that should be parsed. This is required for relative links.
    /// * `text` - data to be parsed.
    pub fn new(url: Link, text: &str) -> (r: Result<Self, BfError>)
        ensures
            r is Ok,
            r matches Ok(s) ==> s.base() == url@ && s.hrefs() == anchor_hrefs(text@),
    {
        let hrefs = select_anchor_hrefs(text);
        Ok(UrlScraper::from_hrefs(url, hrefs))
    }

    /// The anchors of the page `url` whose `href` attributes (`None` for an
    /// anchor without one) are `hrefs`, in order.
    pub fn from_hrefs(url: Link, hrefs: Vec<Option<String>>) -> (r: Self)
        ensures
            r.base() == url@,
            r.hrefs() == hrefs.deep_view(),
    {
        UrlScraper { url, hrefs }
    }

    /// An iterator over the links of the page.
    pub fn into_iter<'a>(&'a self) -> (r: UrlIter<'a>)
        ensures
            r.base() == self.base(),
            r.remaining() == self.links_spec(),
    {
        proof {
            assert(self.hrefs().skip(0) =~= self.hrefs());
        }
        UrlIter { url: &self.url, data: &self.hrefs, pos: 0 }
    }

    /// All links of the page, in the order of its anchors.
    pub fn links(&self) -> (r: Vec<Link>)
        ensures
            r@.len() == self.links_spec().len(),
            forall|i: int|
                0 <= i < r@.len() ==> #[trigger] r@[i]@ == link_view(self.links_spec()[i]),
    {
        let mut iter = self.into_iter();
        let mut out: Vec<Link> = Vec::new();
        let ghost all = self.links_spec();
        loop
            invariant
                all == self.links_spec(),
                out@.len() + iter.remaining().len() == all.len(),
                iter.remaining() == all.skip(out@.len() as int),
                forall|i: int| 0 <= i < out@.len() ==> #[trigger] out@[i]@ == link_view(all[i]),
            decreases iter.remaining().len(),
        {
            let ghost before = iter.remaining();
            match iter.next() {
                Some(l) => {
                    proof {
                        assert(before[0] == all[out@.len() as int]);
                        assert(all.skip(out@.len() + 1int) =~= before.drop_first());
                    }
                    out.push(l);
                },
                None => {
                    return out;
                },
            }
        }
    }
}

/// An iterator over the links of a page.
pub struct UrlIter<'a> {
    url: &'a Link,
    data: &'a Vec<Option<String>>,
    pos: usize,
}

impl<'a> UrlIter<'a> {
    /// The page whose links are given.
    pub closed spec fn base(&self) -> LinkView {
        self.url@
    }

    /// The links not yet given, in order.
    pub closed spec fn remaining(&self) -> Seq<Seq<char>> {
        if self.pos <= self.data@.len() {
            scraped_links(self.url@.serialization, self.data.deep_view().skip(self.pos as int))
        } else {
            seq![]
        }
    }

    /// The next link of the page.
    pub fn next(&mut self) -> (r: Option<Link>)
        ensures
            final(self).base() == old(self).base(),
            old(self).remaining().len() == 0 ==> r is None && final(self).remaining().len() == 0,
            old(self).remaining().len() > 0 ==> (r matches Some(l) && l@ == link_view(
                old(self).remaining()[0],
            ) && final(self).remaining() == old(self).remaining().drop_first()),
    {
        let ghost base = self.url@.serialization;
        let ghost hrefs = self.data.deep_view();
        let ghost start = self.remaining();
        if self.pos > self.data.len() {
            self.pos = self.data.len();
            proof {
                assert(hrefs.skip(hrefs.len() as int) =~= Seq::<Option<Seq<char>>>::empty());
            }
            return None;
        }
        while self.pos < self.data.len()
            invariant
                self.url == old(self).url,
                self.data == old(self).data,
                base == self.url@.serialization,
                hrefs == self.data.deep_view(),
                hrefs.len() == self.data@.len(),
                self.pos <= self.data@.len(),
                scraped_links(base, hrefs.skip(self.pos as int)) == start,
                start == old(self).remaining(),
                old(self).pos <= self.data@.len(),
            decreases self.data@.len() - self.pos,
        {
            let i = self.pos;
            proof {
                lemma_scraped_step(base, hrefs, i as int);
            }
            self.pos = self.pos + 1;
            match &self.data[i] {
                Some(href) => {
                    assert(hrefs[i as int] == Some(href@));
                    if !starts_with_question_mark(href.as_str()) {
                        if let Some(url) = self.url.join(href.as_str()) {
                            proof {
                                assert(link_of_href(base, hrefs[i as int]) == Some(url@.serialization));
                                assert(url@ == link_view(url@.serialization));
                                assert(start[0] == url@.serialization);
                                assert(start.drop_first() =~= scraped_links(base, hrefs.skip(i + 1)));
                            }
                            return Some(url);
                        }
                    }
                },
                None => {
                    assert(hrefs[i as int] is None);
                },
            }
        }
        proof {
            assert(hrefs.skip(self.pos as int) =~= Seq::<Option<Seq<char>>>::empty());
        }
        None
    }
}

/// Tells whether `s` starts with `?`.
fn starts_with_question_mark(s: &str) -> (r: bool)
    ensures
        r == (s@.len() > 0 && s@[0] == '?'),
{
    if s.unicode_len() == 0 {
        false
    } else {
        s.get_char(0) == '?'
    }
}

} // verus!
