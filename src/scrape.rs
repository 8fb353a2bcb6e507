//! Extracting the advertised codes from the published page.
//!
//! The page holds the codes as the child elements of its first `div.codes`
//! element, one code per child, as the child's first text.
use vstd::prelude::*;

use scraper::{Html, Selector};

verus! {

/// Why the page yielded no codes.
#[derive(Debug, Clone, Copy, PartialEq, Eq, Structural)]
pub enum ScrapeError {
    /// The page has no element that the container selector matches.
    MissingContainer,
}

/// For the HTML text `page` and the CSS selector text `selector`: `None`
/// when the selector does not parse or matches no element; else, for each
/// child element of the first matching element, in order, its first text
/// node if it has one.
pub uninterp spec fn container_child_texts(page: Seq<char>, selector: Seq<char>) -> Option<
    Seq<Option<Seq<char>>>,
>;

/// The views of a sequence of optional strings.
pub open spec fn opt_texts_view(texts: Seq<Option<String>>) -> Seq<Option<Seq<char>>> {
    texts.map_values(
        |t: Option<String>|
            match t {
                Some(s) => Some(s@),
                None => None,
            },
    )
}

/// Relies on scraper's `Selector::parse`, `Html::parse_document`,
/// `Html::select`, `ElementRef::child_elements` and `ElementRef::text`: the
/// document is parsed from the page text, its first element that the selector
/// matches is taken, and each of that element's child elements gives its
/// first text node. The result depends on the two texts alone.
#[verifier::external_body]
fn child_texts(page: &str, selector: &str) -> (r: Option<Vec<Option<String>>>)
    ensures
        match r {
            Some(v) => container_child_texts(page@, selector@) == Some(opt_texts_view(v@)),
            None => container_child_texts(page@, selector@) is None,
        },
{
    let selector = Selector::parse(selector).ok()?;
    let html = Html::parse_document(page);
    let container = html.select(&selector).next()?;
    let mut texts = Vec::new();
    for child in container.child_elements() {
        texts.push(child.text().next().map(String::from));
    }
    Some(texts)
}

/// The present texts among `texts`, in order.
pub open spec fn present_texts(texts: Seq<Option<Seq<char>>>) -> Seq<Seq<char>>
    decreases texts.len(),
{
    if texts.len() == 0 {
        Seq::empty()
    } else {
        let rest = present_texts(texts.drop_last());
        match texts.last() {
            Some(t) => rest.push(t),
            None => rest,
        }
    }
}

/// The codes that a code container offers, given the first text of each of
/// its children: every child that has a text gives its text, in order.
pub fn collect_codes(texts: Vec<Option<String>>) -> (r: Vec<String>)
    ensures
        r@.map_values(|s: String| s@) == present_texts(opt_texts_view(texts@)),
{
    let mut out: Vec<String> = Vec::new();
    let mut i: usize = 0;
    while i < texts.len()
        invariant
            i <= texts@.len(),
            out@.map_values(|s: String| s@) == present_texts(opt_texts_view(texts@).take(i as int)),
        decreases texts@.len() - i,
    {
        assert(opt_texts_view(texts@).take(i as int + 1).drop_last() =~= opt_texts_view(
            texts@,
        ).take(i as int));
        if let Some(t) = &texts[i] {
            out.push(t.clone());
            assert(out@.map_values(|s: String| s@) =~= present_texts(
                opt_texts_view(texts@).take(i as int + 1),
            ));
        }
        i = i + 1;
    }
    assert(opt_texts_view(texts@).take(texts@.len() as int) =~= opt_texts_view(texts@));
    out
}

/// The codes advertised on `page`: the first text of each child element of
/// the first `div.codes` element, skipping children without text. Fails when
/// the page has no such element.
pub fn scrape_codes(page: &str) -> (r: Result<Vec<String>, ScrapeError>)
    ensures
        match container_child_texts(page@, "div.codes"@) {
            Some(texts) => r is Ok && r->Ok_0@.map_values(|s: String| s@) == present_texts(texts),
            None => r == Err::<Vec<String>, ScrapeError>(ScrapeError::MissingContainer),
        },
{
    match child_texts(page, "div.codes") {
        Some(texts) => Ok(collect_codes(texts)),
        None => Err(ScrapeError::MissingContainer),
    }
}

} // verus!
