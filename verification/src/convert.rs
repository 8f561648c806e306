//! Conversion of a whole document: the text of the selected pages,
//! joined and cleaned into Markdown.

use std::collections::HashSet;

use lopdf::Document as PdfDocument;
use vstd::prelude::*;

use crate::error::{lopdf_error_maps_to, Error};
use lopdf::Error as LopdfError;
use crate::markdown::postprocess::{clean_markdown, cleaned_markdown};
use crate::pdf::objects::{
    document_page_count, document_page_numbers, page_numbers_upto, trailer_shape,
};
use crate::pdf::{
    document_title, has_pdf_header, info_title_bytes, load_from_bytes, loaded_trailer, title_from,
    type_hint,
};
use crate::text::chars::{push_chars, str_chars};
use crate::text::unicode::{expand_ligatures, ligatures_expanded};
use crate::types::{decimal, push_decimal, Document};

verus! {

broadcast use vstd::std_specs::hash::group_hash_axioms;

/// The part of the assembled text that a page contributes: a
/// `<!-- Page N -->` marker and a blank line when page breaks are wanted,
/// the page's text with ligatures expanded, and a blank line.
pub open spec fn page_block(number: u32, text: Seq<char>, page_breaks: bool) -> Seq<char> {
    (if page_breaks {
        "<!-- Page "@ + decimal(number as nat) + " -->\n\n"@
    } else {
        seq![]
    }) + ligatures_expanded(text) + "\n\n"@
}

/// The blocks of the first `k` pages, in order.
pub open spec fn pages_text(pages: Seq<(u32, Seq<char>)>, page_breaks: bool, k: nat) -> Seq<char>
    decreases k,
{
    if k == 0 {
        seq![]
    } else {
        pages_text(pages, page_breaks, (k - 1) as nat) + page_block(
            pages[k - 1].0,
            pages[k - 1].1,
            page_breaks,
        )
    }
}

/// The pages (numbered text) as plain values.
pub open spec fn page_views(pages: Seq<(u32, String)>) -> Seq<(u32, Seq<char>)> {
    Seq::new(pages.len(), |i: int| (pages[i].0, pages[i].1@))
}

/// Assemble the Markdown of a document from the text of its pages, in the
/// order given, and clean it up.
pub fn render_pages(
    pages: &[(u32, String)],
    include_page_breaks: bool,
    fix_hyphenation: bool,
    remove_page_numbers: bool,
    format_urls: bool,
) -> (r: String)
    ensures
        r@ == cleaned_markdown(
            pages_text(page_views(pages@), include_page_breaks, pages@.len()),
            fix_hyphenation,
            remove_page_numbers,
            format_urls,
        ),
{
    let ghost views = page_views(pages@);
    let mut output = String::new();
    let mut i: usize = 0;
    while i < pages.len()
        invariant
            i <= pages@.len(),
            views == page_views(pages@),
            output@ == pages_text(views, include_page_breaks, i as nat),
        decreases pages@.len() - i,
    {
        let (number, text) = &pages[i];
        let ghost before = output@;
        if include_page_breaks {
            let open = str_chars("<!-- Page ");
            push_chars(&mut output, open.as_slice());
            push_decimal(&mut output, *number);
            let close = str_chars(" -->\n\n");
            push_chars(&mut output, close.as_slice());
        }
        let expanded = expand_ligatures(text.as_str());
        let e = str_chars(expanded.as_str());
        push_chars(&mut output, e.as_slice());
        let sep = str_chars("\n\n");
        push_chars(&mut output, sep.as_slice());
        assert(output@ =~= before + page_block(*number, text@, include_page_breaks));
        i += 1;
    }
    clean_markdown(output, fix_hyphenation, remove_page_numbers, format_urls)
}

/// The page numbers kept by a filter: all of them without one, otherwise
/// those it contains, in order.
pub open spec fn filtered_pages(pages: Seq<u32>, filter: Option<Set<u32>>) -> Seq<u32> {
    match filter {
        None => pages,
        Some(f) => pages.filter(|n: u32| f.contains(n)),
    }
}

/// Keep the page numbers that the optional filter holds.
pub fn selected_pages(pages: &[u32], filter: Option<&HashSet<u32>>) -> (r: Vec<u32>)
    ensures
        r@ == filtered_pages(
            pages@,
            match filter {
                Some(f) => Some(f@),
                None => None,
            },
        ),
{
    let mut out: Vec<u32> = Vec::new();
    let mut i: usize = 0;
    while i < pages.len()
        invariant
            i <= pages@.len(),
            out@ == filtered_pages(
                pages@.take(i as int),
                match filter {
                    Some(f) => Some(f@),
                    None => None,
                },
            ),
        decreases pages@.len() - i,
    {
        let n = pages[i];
        proof {
            assert(pages@.take(i + 1).drop_last() =~= pages@.take(i as int));
            if let Some(f) = filter {
                reveal(Seq::filter);
            }
        }
        match filter {
            Some(f) => {
                if f.contains(&n) {
                    out.push(n);
                }
            },
            None => {
                out.push(n);
            },
        }
        proof {
            if filter is None {
                assert(out@ =~= pages@.take(i + 1));
            }
        }
        i += 1;
    }
    assert(pages@.take(pages@.len() as int) =~= pages@);
    out
}

/// The text that `Document::extract_text_with_limit` gives for page
/// `number` of a document with that bound on the page's decompressed
/// content, or `None` where it returns an error.
pub uninterp spec fn extracted_text(doc: PdfDocument, number: u32, limit: usize) -> Option<
    Seq<char>,
>;

/// The bound on a page's decompressed content (256 MiB): a page whose
/// content streams would inflate past it yields no text.
pub const PAGE_CONTENT_LIMIT: usize = 268435456;

/// `Document::extract_text_with_limit` on one page, the bounded variant
/// that lopdf recommends for input it does not control. Its source returns
/// every failure (a missing page, an unreadable font or content stream,
/// content past the bound) as an error; no panic is shown there for a
/// loaded document, but that is not proved.
#[verifier::external_body]
fn page_text(doc: &PdfDocument, number: u32, limit: usize) -> (r: Option<String>)
    ensures
        r is Some <==> extracted_text(*doc, number, limit) is Some,
        r matches Some(t) ==> extracted_text(*doc, number, limit) == Some(t@),
{
    doc.extract_text_with_limit(&[number], limit).ok()
}

/// A page's text, with an extraction error read as no text.
pub open spec fn page_text_of(doc: PdfDocument, number: u32) -> Seq<char> {
    match extracted_text(doc, number, PAGE_CONTENT_LIMIT) {
        Some(t) => t,
        None => seq![],
    }
}

/// Each page number with its text.
pub open spec fn texts_of(doc: PdfDocument, numbers: Seq<u32>) -> Seq<(u32, Seq<char>)> {
    Seq::new(numbers.len(), |i: int| (numbers[i], page_text_of(doc, numbers[i])))
}

/// A page filter as a set.
pub open spec fn filter_view(filter: Option<&HashSet<u32>>) -> Option<Set<u32>> {
    match filter {
        Some(f) => Some(f@),
        None => None,
    }
}

/// The Markdown of the pages of `all` that the filter keeps, each with its
/// text, in that order.
pub open spec fn markdown_of_pages(
    doc: PdfDocument,
    all: Seq<u32>,
    filter: Option<Set<u32>>,
    page_breaks: bool,
    fix_hyphenation: bool,
    remove_page_numbers: bool,
    format_urls: bool,
) -> Seq<char> {
    let pages = texts_of(doc, filtered_pages(all, filter));
    cleaned_markdown(
        pages_text(pages, page_breaks, pages.len()),
        fix_hyphenation,
        remove_page_numbers,
        format_urls,
    )
}

/// The Markdown of a document: its pages `1..=n` that the filter keeps.
pub open spec fn document_markdown(
    doc: PdfDocument,
    filter: Option<Set<u32>>,
    page_breaks: bool,
    fix_hyphenation: bool,
    remove_page_numbers: bool,
    format_urls: bool,
) -> Seq<char> {
    markdown_of_pages(
        doc,
        page_numbers_upto(document_page_count(doc)),
        filter,
        page_breaks,
        fix_hyphenation,
        remove_page_numbers,
        format_urls,
    )
}

/// The Markdown of a loaded document: the text of each selected page (as
/// lopdf extracts it within `PAGE_CONTENT_LIMIT`, none where it fails), in page order, assembled and
/// cleaned by [`render_pages`].
pub fn markdown_from_pages(
    doc: &PdfDocument,
    page_filter: Option<&HashSet<u32>>,
    include_page_breaks: bool,
    fix_hyphenation: bool,
    remove_page_numbers: bool,
    format_urls: bool,
) -> (r: String)
    ensures
        document_page_count(*doc) <= u32::MAX ==> r@ == document_markdown(
            *doc,
            filter_view(page_filter),
            include_page_breaks,
            fix_hyphenation,
            remove_page_numbers,
            format_urls,
        ),
        exists|all: Seq<u32>|
            r@ == #[trigger] markdown_of_pages(
                *doc,
                all,
                filter_view(page_filter),
                include_page_breaks,
                fix_hyphenation,
                remove_page_numbers,
                format_urls,
            ),
{
    let all = document_page_numbers(doc);
    let numbers = selected_pages(all.as_slice(), page_filter);
    let ghost wanted = texts_of(*doc, numbers@);
    let mut pages: Vec<(u32, String)> = Vec::new();
    let mut i: usize = 0;
    while i < numbers.len()
        invariant
            i <= numbers@.len(),
            wanted == texts_of(*doc, numbers@),
            pages@.len() == i,
            page_views(pages@) =~= wanted.take(i as int),
        decreases numbers@.len() - i,
    {
        let n = numbers[i];
        let text = match page_text(doc, n, PAGE_CONTENT_LIMIT) {
            Some(t) => t,
            None => String::new(),
        };
        assert(text@ == page_text_of(*doc, n));
        let ghost before = pages@;
        pages.push((n, text));
        assert(page_views(pages@)[i as int] == wanted[i as int]);
        assert forall|k: int| 0 <= k < i implies #[trigger] page_views(pages@)[k] == wanted[k] by {
            assert(pages@[k] == before[k]);
            assert(page_views(before)[k] == wanted.take(i as int)[k]);
        }
        i += 1;
        assert(page_views(pages@) =~= wanted.take(i as int));
    }
    let r = render_pages(
        pages.as_slice(),
        include_page_breaks,
        fix_hyphenation,
        remove_page_numbers,
        format_urls,
    );
    assert(page_views(pages@) =~= wanted);
    assert(r@ == markdown_of_pages(
        *doc,
        all@,
        filter_view(page_filter),
        include_page_breaks,
        fix_hyphenation,
        remove_page_numbers,
        format_urls,
    ));
    r
}

/// The title read from a document's `/Info` dictionary, as
/// [`document_title`] returns it.
pub open spec fn title_matches(doc: PdfDocument, title: Option<String>) -> bool {
    match title {
        Some(s) => title_from(info_title_bytes(doc)) == Some(s@),
        None => title_from(info_title_bytes(doc)) is None,
    }
}

/// What a conversion gives for a loaded document: its title, its page
/// count and the Markdown of its selected pages (the count and the
/// Markdown as far as the page numbers fit in a `u32`).
pub open spec fn converted_from(
    doc: PdfDocument,
    d: Document,
    filter: Option<Set<u32>>,
    page_breaks: bool,
    fix_hyphenation: bool,
    remove_page_numbers: bool,
    format_urls: bool,
) -> bool {
    &&& title_matches(doc, d.title)
    &&& document_page_count(doc) <= u32::MAX ==> {
        &&& d.page_count == document_page_count(doc)
        &&& d.markdown@ == document_markdown(
            doc,
            filter,
            page_breaks,
            fix_hyphenation,
            remove_page_numbers,
            format_urls,
        )
    }
}

/// Convert a PDF from a byte buffer to Markdown: the pages the filter
/// keeps, with the given clean-up options.
///
/// A buffer without a PDF header is refused with `NotPdf` before parsing;
/// one with a header converts exactly when lopdf can load it, and the
/// result is what [`converted_from`] states of the loaded document (whose
/// trailer is the one lopdf reads from the buffer).
pub fn convert_bytes_with(
    buffer: &[u8],
    page_filter: Option<&HashSet<u32>>,
    include_page_breaks: bool,
    fix_hyphenation: bool,
    remove_page_numbers: bool,
    format_urls: bool,
) -> (r: Result<Document, Error>)
    ensures
        !has_pdf_header(buffer@) ==> (r matches Err(Error::NotPdf { hint }) && hint@ == type_hint(
            buffer@,
        )),
        has_pdf_header(buffer@) ==> (r is Ok <==> loaded_trailer(buffer@) is Some),
        has_pdf_header(buffer@) && r is Err ==> exists|le: LopdfError|
            #[trigger] lopdf_error_maps_to(le, r->Err_0),
        r matches Ok(d) ==> exists|doc: PdfDocument|
            loaded_trailer(buffer@) == Some(trailer_shape(doc)) && #[trigger] converted_from(
                doc,
                d,
                filter_view(page_filter),
                include_page_breaks,
                fix_hyphenation,
                remove_page_numbers,
                format_urls,
            ),
{
    let (doc, page_count) = load_from_bytes(buffer)?;
    let title = document_title(&doc);
    let markdown = markdown_from_pages(
        &doc,
        page_filter,
        include_page_breaks,
        fix_hyphenation,
        remove_page_numbers,
        format_urls,
    );
    let d = Document { markdown, page_count, title };
    assert(converted_from(
        doc,
        d,
        filter_view(page_filter),
        include_page_breaks,
        fix_hyphenation,
        remove_page_numbers,
        format_urls,
    ));
    Ok(d)
}

/// Convert a PDF from a byte buffer to Markdown with default options: all
/// pages, no page-break markers, hyphenation fixed, page numbers removed
/// and URLs linked.
pub fn convert_bytes(buffer: &[u8]) -> (r: Result<Document, Error>)
    ensures
        !has_pdf_header(buffer@) ==> (r matches Err(Error::NotPdf { hint }) && hint@ == type_hint(
            buffer@,
        )),
        has_pdf_header(buffer@) ==> (r is Ok <==> loaded_trailer(buffer@) is Some),
        has_pdf_header(buffer@) && r is Err ==> exists|le: LopdfError|
            #[trigger] lopdf_error_maps_to(le, r->Err_0),
        r matches Ok(d) ==> exists|doc: PdfDocument|
            loaded_trailer(buffer@) == Some(trailer_shape(doc)) && #[trigger] converted_from(
                doc,
                d,
                None,
                false,
                true,
                true,
                true,
            ),
{
    convert_bytes_with(buffer, None, false, true, true, true)
}

} // verus!
