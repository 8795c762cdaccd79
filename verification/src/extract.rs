//! The link extractor: from the text of a page to its download targets.

use vstd::prelude::*;
use vstd::string::StringExecFns;
use vstd::utf8::encode_utf8;
use crate::path::{file_name, lemma_file_name_is_plain, spec_file_name};
use crate::target::{
    DownloadTarget,
    DownloadTargetView,
    LinkElement,
    LinkElementView,
    NamingMode,
};

verus! {

/// The selector that identifies an attachment link: a link that is a child
/// of a file container of a post.
pub open spec fn link_selector() -> Seq<char> {
    "div.fileText > a"@
}

/// The attribute that holds a link's target.
pub open spec fn target_attribute() -> Seq<char> {
    "href"@
}

/// The attribute that holds a link's human-readable title.
pub open spec fn title_attribute() -> Seq<char> {
    "title"@
}

/// The scheme that is put in front of a link target to make it absolute.
pub open spec fn url_scheme() -> Seq<char> {
    "https:"@
}

/// The largest page, in bytes, that is handed to the parser. The parser
/// keeps text in buffers that cannot pass four gigabytes, and a page may
/// grow threefold on its way into them.
pub const MAX_PAGE_BYTES: usize = 0x0fff_ffff;

/// The number of bytes that a text takes up.
pub open spec fn byte_len(text: Seq<char>) -> nat {
    encode_utf8(text).len()
}

/// The elements of the HTML document `html` that match the CSS selector
/// `selector`, in the order in which the document yields them, each with the
/// values of its attributes `link_attr` and `title_attr` and with the text
/// of the text nodes below it, joined; `None` where `selector` is no valid
/// selector.
pub uninterp spec fn selected_elements(
    html: Seq<char>,
    selector: Seq<char>,
    link_attr: Seq<char>,
    title_attr: Seq<char>,
) -> Option<Seq<LinkElementView>>;

/// Parses `html` with `scraper::Html::parse_document`, compiles `selector`
/// with `scraper::Selector::parse` and walks `scraper::Html::select`. Each
/// match is handed out with what `ElementRef::attr` gives for the two
/// attribute names and with the pieces of its `ElementRef::text`, joined.
///
/// Nothing is proved of this function. The contract only gives its result a
/// name: parsing and matching are determined by the four arguments. The
/// page must not be larger than [`MAX_PAGE_BYTES`], beyond which the
/// parser's buffers may overflow.
#[verifier::external_body]
fn select_elements(html: &str, selector: &str, link_attr: &str, title_attr: &str) -> (found:
    Option<Vec<LinkElement>>)
    requires
        byte_len(html@) <= MAX_PAGE_BYTES,
    ensures
        match found {
            Some(elements) => selected_elements(html@, selector@, link_attr@, title_attr@) == Some(
                elements.deep_view(),
            ),
            None => selected_elements(html@, selector@, link_attr@, title_attr@) is None,
        },
{
    let compiled = match scraper::Selector::parse(selector) {
        Ok(compiled) => compiled,
        Err(_) => return None,
    };
    let document = scraper::Html::parse_document(html);
    let mut found = Vec::new();
    for element in document.select(&compiled) {
        found.push(LinkElement {
            href: element.attr(link_attr).map(String::from),
            title: element.attr(title_attr).map(String::from),
            inner_text: element.text().collect(),
        });
    }
    Some(found)
}

/// The absolute address for a link target of a page.
pub open spec fn absolute_url(href: Seq<char>) -> Seq<char> {
    url_scheme() + href
}

/// The name under which a link is stored in the given mode, if the mode
/// gives it one.
pub open spec fn spec_filename(element: LinkElementView, href: Seq<char>, mode: NamingMode)
    -> Option<Seq<char>> {
    match mode {
        NamingMode::Derived => spec_file_name(href),
        NamingMode::Original => match element.title {
            Some(title) => Some(title),
            None => Some(element.inner_text),
        },
    }
}

/// The target that a link yields: none where it has no target attribute or,
/// in derived mode, where its target has no file name.
pub open spec fn spec_target(element: LinkElementView, mode: NamingMode) -> Option<
    DownloadTargetView,
> {
    match element.href {
        None => None,
        Some(href) => match spec_filename(element, href, mode) {
            None => None,
            Some(filename) => Some(DownloadTargetView { url: absolute_url(href), filename }),
        },
    }
}

/// The targets of a sequence of links: what each link yields, in the order
/// of the links. Links that yield nothing are passed over; equal links yield
/// equal targets, once each.
pub open spec fn spec_targets(elements: Seq<LinkElementView>, mode: NamingMode) -> Seq<
    DownloadTargetView,
> {
    elements.filter_map(|element: LinkElementView| spec_target(element, mode))
}

/// The attachment links of a page, in document order. A page of more than
/// [`MAX_PAGE_BYTES`] bytes is not parsed and has none.
pub open spec fn page_links(html: Seq<char>) -> Seq<LinkElementView> {
    if byte_len(html) > MAX_PAGE_BYTES {
        Seq::empty()
    } else {
        match selected_elements(html, link_selector(), target_attribute(), title_attribute()) {
            Some(elements) => elements,
            None => Seq::empty(),
        }
    }
}

/// The absolute address for the link target `href`.
pub fn make_url(href: &str) -> (url: String)
    ensures
        url@ == absolute_url(href@),
{
    String::from_str("https:").concat(href)
}

/// The target that `element` yields in `mode`, if it yields one.
pub fn target_for(element: &LinkElement, mode: NamingMode) -> (target: Option<DownloadTarget>)
    ensures
        match target {
            Some(t) => spec_target(element@, mode) == Some(t@),
            None => spec_target(element@, mode) is None,
        },
{
    let href = match &element.href {
        Some(href) => href.as_str(),
        None => return None,
    };
    let filename = match mode {
        NamingMode::Derived => match file_name(href) {
            Some(name) => name,
            None => return None,
        },
        NamingMode::Original => match &element.title {
            Some(title) => title.clone(),
            None => element.inner_text.clone(),
        },
    };
    Some(DownloadTarget { url: make_url(href), filename })
}

/// The targets of the links `elements`, in their order.
pub fn extract_targets(elements: &Vec<LinkElement>, mode: NamingMode) -> (targets: Vec<
    DownloadTarget,
>)
    ensures
        targets.deep_view() == spec_targets(elements.deep_view(), mode),
{
    let ghost links = elements.deep_view();
    let ghost yielded = |element: LinkElementView| spec_target(element, mode);
    let mut targets: Vec<DownloadTarget> = Vec::new();
    for i in 0..elements.len()
        invariant
            links == elements.deep_view(),
            yielded == |element: LinkElementView| spec_target(element, mode),
            targets.deep_view() == links.take(i as int).filter_map(yielded),
    {
        let ghost before = targets.deep_view();
        proof {
            links.lemma_filter_map_take_succ(yielded, i as int);
        }
        match target_for(&elements[i], mode) {
            Some(target) => {
                targets.push(target);
                assert(targets.deep_view() =~= before + seq![target@]);
            },
            None => {
                assert(before + Seq::<DownloadTargetView>::empty() =~= before);
            },
        }
    }
    proof {
        assert(links.take(elements.len() as int) =~= links);
    }
    targets
}

/// The targets of the attachment links of the page `html`, in document
/// order. With `use_original` the targets are named in original mode, else
/// in derived mode. Text that is no well-formed document yields the targets
/// of whatever links the parser finds in it; a page of more than
/// [`MAX_PAGE_BYTES`] bytes is not parsed and yields none.
pub fn parse_html(html: &str, use_original: bool) -> (targets: Vec<DownloadTarget>)
    ensures
        targets.deep_view() == spec_targets(
            page_links(html@),
            NamingMode::spec_from_flag(use_original),
        ),
{
    let mode = NamingMode::from_flag(use_original);
    if html.as_bytes().len() > MAX_PAGE_BYTES {
        return Vec::new();
    }
    match select_elements(html, "div.fileText > a", "href", "title") {
        Some(elements) => extract_targets(&elements, mode),
        None => Vec::new(),
    }
}

/// The text of a page as it counts for the run, given what the transport
/// delivered: the text where the answer was a success and the body was read
/// to its end, else nothing. A page is there in full or not at all.
pub fn fetched_page(status_ok: bool, complete: bool, text: String) -> (page: Option<String>)
    ensures
        page == if status_ok && complete {
            Some(text)
        } else {
            None
        },
{
    if status_ok && complete {
        Some(text)
    } else {
        None
    }
}

/// The targets of a run over several pages: those of each page that was
/// fetched, page after page in the order given. A page whose fetch failed
/// stands as `None` and contributes nothing.
pub open spec fn spec_gather(pages: Seq<Option<Seq<char>>>, mode: NamingMode) -> Seq<
    DownloadTargetView,
>
    decreases pages.len(),
{
    if pages.len() == 0 {
        Seq::empty()
    } else {
        spec_gather(pages.drop_last(), mode) + match pages.last() {
            Some(html) => spec_targets(page_links(html), mode),
            None => Seq::empty(),
        }
    }
}

/// The targets of all the pages of a run, in the order of the pages and,
/// within a page, in document order. `pages` holds, for each address given,
/// the text of the page or `None` where it could not be fetched.
pub fn gather_targets(pages: &Vec<Option<String>>, use_original: bool) -> (targets: Vec<
    DownloadTarget,
>)
    ensures
        targets.deep_view() == spec_gather(
            pages.deep_view(),
            NamingMode::spec_from_flag(use_original),
        ),
{
    let ghost texts = pages.deep_view();
    let ghost mode = NamingMode::spec_from_flag(use_original);
    let mut targets: Vec<DownloadTarget> = Vec::new();
    assert(texts.take(0) =~= Seq::empty());
    for i in 0..pages.len()
        invariant
            texts == pages.deep_view(),
            mode == NamingMode::spec_from_flag(use_original),
            targets.deep_view() == spec_gather(texts.take(i as int), mode),
    {
        let ghost before = targets.deep_view();
        proof {
            assert(texts.take(i + 1).drop_last() =~= texts.take(i as int));
            assert(texts.take(i + 1).last() == texts[i as int]);
        }
        match &pages[i] {
            Some(html) => {
                let mut found = parse_html(html.as_str(), use_original);
                let ghost added = found.deep_view();
                targets.append(&mut found);
                assert(targets.deep_view() =~= before + added);
            },
            None => {
                assert(before + Seq::<DownloadTargetView>::empty() =~= before);
            },
        }
    }
    assert(texts.take(pages.len() as int) =~= texts);
    targets
}

/// A link yields a target in the given mode.
pub open spec fn yields_target(element: LinkElementView, mode: NamingMode) -> bool {
    spec_target(element, mode) is Some
}

/// A link has a target attribute.
pub open spec fn has_href(element: LinkElementView) -> bool {
    element.href is Some
}

/// A link has a target attribute whose value has no file name.
pub open spec fn has_nameless_href(element: LinkElementView) -> bool {
    element.href is Some && spec_file_name(element.href->0) is None
}

/// The positions, in increasing order, of the links that yield a target.
pub open spec fn source_positions(elements: Seq<LinkElementView>, mode: NamingMode) -> Seq<int>
    decreases elements.len(),
{
    if elements.len() == 0 {
        Seq::empty()
    } else {
        let earlier = source_positions(elements.drop_last(), mode);
        if yields_target(elements.last(), mode) {
            earlier.push(elements.len() - 1)
        } else {
            earlier
        }
    }
}

/// Extraction keeps document order: the targets are what the yielding
/// links yield, one target for each such link, and a target stands before
/// another exactly where its link does. Nothing is merged, so a link that
/// occurs twice yields two targets.
pub proof fn lemma_targets_keep_document_order(elements: Seq<LinkElementView>, mode: NamingMode)
    ensures
        spec_targets(elements, mode).len() == source_positions(elements, mode).len(),
        forall|k: int|
            0 <= k < source_positions(elements, mode).len() ==> {
                &&& 0 <= #[trigger] source_positions(elements, mode)[k] < elements.len()
                &&& spec_target(elements[source_positions(elements, mode)[k]], mode) == Some(
                    spec_targets(elements, mode)[k],
                )
            },
        forall|j: int, k: int|
            0 <= j < k < source_positions(elements, mode).len() ==> source_positions(
                elements,
                mode,
            )[j] < source_positions(elements, mode)[k],
        forall|i: int|
            0 <= i < elements.len() && yields_target(#[trigger] elements[i], mode)
                ==> source_positions(elements, mode).contains(i),
    decreases elements.len(),
{
    let positions = source_positions(elements, mode);
    let targets = spec_targets(elements, mode);
    if elements.len() > 0 {
        let shorter = elements.drop_last();
        let last = elements.len() - 1;
        lemma_targets_keep_document_order(shorter, mode);
        let earlier = source_positions(shorter, mode);
        assert forall|i: int|
            0 <= i < elements.len() && yields_target(#[trigger] elements[i], mode) implies positions.contains(
            i,
        ) by {
            if i < last {
                assert(shorter[i] == elements[i]);
                let k = choose|k: int| 0 <= k < earlier.len() && earlier[k] == i;
                assert(positions[k] == i);
            } else {
                assert(positions[positions.len() - 1] == i);
            }
        }
        assert forall|k: int| 0 <= k < positions.len() implies {
            &&& 0 <= #[trigger] positions[k] < elements.len()
            &&& spec_target(elements[positions[k]], mode) == Some(targets[k])
        } by {
            if k < earlier.len() {
                assert(shorter[earlier[k]] == elements[earlier[k]]);
            }
        }
    }
}

/// In original mode every link with a target attribute yields a target.
pub proof fn lemma_original_mode_count(elements: Seq<LinkElementView>)
    ensures
        spec_targets(elements, NamingMode::Original).len() == elements.filter(
            |element: LinkElementView| has_href(element),
        ).len(),
    decreases elements.len(),
{
    reveal(Seq::filter);
    if elements.len() > 0 {
        lemma_original_mode_count(elements.drop_last());
    }
}

/// In derived mode every link with a target attribute yields a target, but
/// for those whose target has no file name.
pub proof fn lemma_derived_mode_count(elements: Seq<LinkElementView>)
    ensures
        spec_targets(elements, NamingMode::Derived).len() == elements.filter(
            |element: LinkElementView| has_href(element),
        ).len() - elements.filter(|element: LinkElementView| has_nameless_href(element)).len(),
    decreases elements.len(),
{
    reveal(Seq::filter);
    if elements.len() > 0 {
        lemma_derived_mode_count(elements.drop_last());
    }
}

/// A target's address is the scheme followed by the link target as it stands
/// in the page, so it is never empty.
pub proof fn lemma_target_urls(elements: Seq<LinkElementView>, mode: NamingMode, k: int)
    requires
        0 <= k < spec_targets(elements, mode).len(),
    ensures
        spec_targets(elements, mode)[k].url.len() >= 6,
        spec_targets(elements, mode)[k].url.take(6) == url_scheme(),
{
    lemma_targets_keep_document_order(elements, mode);
    reveal_strlit("https:");
    let target = spec_targets(elements, mode)[k];
    let source = elements[source_positions(elements, mode)[k]];
    assert(spec_target(source, mode) == Some(target));
    assert(target.url.take(6) =~= url_scheme());
}

/// In derived mode every target is well formed: its address is not empty,
/// and it is stored under a plain name, which cannot leave the destination
/// directory.
pub proof fn lemma_derived_targets_are_well_formed(elements: Seq<LinkElementView>, k: int)
    requires
        0 <= k < spec_targets(elements, NamingMode::Derived).len(),
    ensures
        spec_targets(elements, NamingMode::Derived)[k].well_formed(),
{
    let mode = NamingMode::Derived;
    lemma_targets_keep_document_order(elements, mode);
    lemma_target_urls(elements, mode, k);
    let source = elements[source_positions(elements, mode)[k]];
    assert(spec_target(source, mode) == Some(spec_targets(elements, mode)[k]));
    lemma_file_name_is_plain(source.href->0);
}

/// Extraction from a page: the page yields one target for each of its
/// attachment links that has a target attribute, but, in derived mode, for
/// those whose target has no file name; and the targets stand in the order
/// of their links in the document.
pub proof fn lemma_page_extraction(html: Seq<char>, use_original: bool)
    ensures
        ({
            let links = page_links(html);
            let mode = NamingMode::spec_from_flag(use_original);
            let targets = spec_targets(links, mode);
            let positions = source_positions(links, mode);
            let with_href = links.filter(|element: LinkElementView| has_href(element)).len();
            let nameless = links.filter(|element: LinkElementView| has_nameless_href(element)).len();
            &&& targets.len() == if use_original {
                with_href as int
            } else {
                with_href - nameless
            }
            &&& targets.len() == positions.len()
            &&& forall|k: int|
                0 <= k < positions.len() ==> 0 <= #[trigger] positions[k] < links.len()
                    && spec_target(links[positions[k]], mode) == Some(targets[k])
            &&& forall|j: int, k: int|
                0 <= j < k < positions.len() ==> positions[j] < positions[k]
        }),
{
    let links = page_links(html);
    lemma_original_mode_count(links);
    lemma_derived_mode_count(links);
    lemma_targets_keep_document_order(links, NamingMode::spec_from_flag(use_original));
}

} // verus!
