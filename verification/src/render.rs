use vstd::prelude::*;

use crate::encoding::{
    decode_file_url, encode_file_url, escape_html, format_human_size, html_escaped_of,
    human_size_of, pct_decoded_of, pct_encoded_of,
};
use crate::merge::{merge_candidates, merge_listing, spec_sort, LocalEntry};
use crate::model::{File_, FileV};
use crate::paths::{or_insert, or_insert_spec};
use crate::registry::OriginEntry;

verus! {

/// The requested path as the merger wants it: percent-decoded, with a
/// trailing slash guaranteed.
pub fn normalize_request_path(path: &str) -> (r: String)
    ensures
        r@ == or_insert_spec(pct_decoded_of(path@), false, true),
{
    let decoded = decode_file_url(path);
    or_insert(decoded.as_str(), false, true)
}

/// One folder row of the listing: an origin-tagged (virtual) folder links to
/// an absolute percent-encoded URL under its origin and is marked external;
/// a local folder links relative to the server root.
pub open spec fn folder_row(f: FileV) -> Seq<char> {
    match f.origin {
        Some(org) => "<li class=\"external\"><a href=\""@ + pct_encoded_of(
            org + f.parent + f.name + "/"@,
        ) + "\">"@ + html_escaped_of(f.name) + "/</a></li>"@,
        None => "<li><a href=\""@ + pct_encoded_of(f.parent + f.name + "/"@) + "\">"@
            + html_escaped_of(f.name) + "/</a></li>"@,
    }
}

/// One file row of the listing: an explicit link is used as-is (it was
/// percent-decoded by the merger and is re-encoded here), an origin-tagged
/// file links under its origin, a local file links relative to the server
/// root; every row shows the human-readable decimal size.
pub open spec fn file_row(f: FileV) -> Seq<char> {
    match f.url {
        Some(u) => "<li class=\"external\"><a href=\""@ + pct_encoded_of(u) + "\">"@
            + html_escaped_of(f.name) + "</a> "@ + human_size_of(f.size) + "</li>"@,
        None => match f.origin {
            Some(org) => "<li class=\"external\"><a href=\""@ + pct_encoded_of(
                org + f.parent + f.name,
            ) + "\">"@ + html_escaped_of(f.name) + "</a> "@ + human_size_of(f.size) + "</li>"@,
            None => "<li><a href=\""@ + pct_encoded_of(f.parent + f.name) + "\">"@
                + html_escaped_of(f.name) + "</a> "@ + human_size_of(f.size) + "</li>"@,
        },
    }
}

/// All folder rows, in listing order.
pub open spec fn folder_rows(fs: Seq<FileV>) -> Seq<char>
    decreases fs.len(),
{
    if fs.len() == 0 {
        Seq::empty()
    } else {
        folder_rows(fs.drop_last()) + folder_row(fs.last())
    }
}

/// All file rows, in listing order.
pub open spec fn file_rows(fs: Seq<FileV>) -> Seq<char>
    decreases fs.len(),
{
    if fs.len() == 0 {
        Seq::empty()
    } else {
        file_rows(fs.drop_last()) + file_row(fs.last())
    }
}

/// The page title.
pub open spec fn index_title(base: Seq<char>) -> Seq<char> {
    "Index of "@ + base
}

/// The whole page around the rows.
pub open spec fn page_html(base: Seq<char>, body: Seq<char>) -> Seq<char> {
    "<html><head><title>"@ + index_title(base)
        + "</title><style>.external::marker { content: '\u{1f517} ' }</style></head><body><h1>"@
        + index_title(base) + "</h1><p>\u{1f517} = File from another server</p><ul>"@ + body
        + "</ul></body></html>"@
}

/// The rendered listing of one directory request: every merged entry as one
/// row, folders first, inside the page frame.
pub open spec fn listing_html(
    base: Seq<char>,
    locals: Seq<crate::merge::LocalEntryV>,
    entries: Seq<crate::registry::OriginEntryV>,
) -> Seq<char> {
    let cands = merge_candidates(base, locals, entries);
    page_html(base, folder_rows(spec_sort(true, cands.0)) + file_rows(spec_sort(false, cands.1)))
}

/// Renders one folder row.
#[verifier::rlimit(100)]
fn render_folder_row(f: &File_) -> (r: String)
    ensures
        r@ == folder_row(f@),
{
    let mut path = String::new();
    match &f.origin {
        Some(org) => {
            path.append(org.as_str());
        },
        None => {},
    }
    path.append(f.parent.as_str());
    path.append(f.name.as_str());
    path.append("/");
    let href = encode_file_url(path.as_str());
    let shown = escape_html(f.name.as_str());
    let mut r = String::new();
    match &f.origin {
        Some(org) => {
            r.append("<li class=\"external\"><a href=\"");
        },
        None => {
            r.append("<li><a href=\"");
        },
    }
    r.append(href.as_str());
    r.append("\">");
    r.append(shown.as_str());
    r.append("/</a></li>");
    proof {
        assert(r@ =~= folder_row(f@)) by {
            match f@.origin {
                Some(org) => {
                    assert(path@ =~= org + f@.parent + f@.name + "/"@);
                },
                None => {
                    assert(path@ =~= f@.parent + f@.name + "/"@);
                },
            }
        }
    }
    r
}

/// Renders one file row.
#[verifier::rlimit(100)]
fn render_file_row(f: &File_) -> (r: String)
    ensures
        r@ == file_row(f@),
{
    let href: String = match &f.url {
        Some(u) => encode_file_url(u.as_str()),
        None => {
            let mut path = String::new();
            match &f.origin {
                Some(org) => {
                    path.append(org.as_str());
                },
                None => {},
            }
            path.append(f.parent.as_str());
            path.append(f.name.as_str());
            proof {
                match f@.origin {
                    Some(org) => {
                        assert(path@ =~= org + f@.parent + f@.name);
                    },
                    None => {
                        assert(path@ =~= f@.parent + f@.name);
                    },
                }
            }
            encode_file_url(path.as_str())
        },
    };
    let shown = escape_html(f.name.as_str());
    let size = format_human_size(f.size);
    let mut r = String::new();
    if f.url.is_some() || f.origin.is_some() {
        r.append("<li class=\"external\"><a href=\"");
    } else {
        r.append("<li><a href=\"");
    }
    r.append(href.as_str());
    r.append("\">");
    r.append(shown.as_str());
    r.append("</a> ");
    r.append(size.as_str());
    r.append("</li>");
    proof {
        assert(r@ =~= file_row(f@));
    }
    r
}

/// Renders the merged listing of one directory request as the full HTML
/// page, rows in the deterministic merge order.
#[verifier::loop_isolation(false)]
#[verifier::rlimit(100)]
pub fn directory_listing(base: &String, locals: &Vec<LocalEntry>, entries: &Vec<OriginEntry>) -> (r:
    String)
    ensures
        r@ == listing_html(base@, locals.deep_view(), entries.deep_view()),
{
    let merged = merge_listing(base, locals, entries);
    let folders = merged.0;
    let files = merged.1;
    let mut body = String::new();
    let mut i: usize = 0;
    while i < folders.len()
        invariant
            i <= folders.len(),
            body@ =~= folder_rows(folders.deep_view().take(i as int)),
        decreases folders.len() - i,
    {
        let row = render_folder_row(&folders[i]);
        body.append(row.as_str());
        i = i + 1;
        proof {
            assert(folders.deep_view().take(i as int).drop_last() =~= folders.deep_view().take(
                i - 1,
            ));
            assert(folders.deep_view().take(i as int).last() == folders.deep_view()[i - 1]);
            assert(body@ =~= folder_rows(folders.deep_view().take(i as int)));
        }
    }
    proof {
        assert(folders.deep_view().take(folders.len() as int) =~= folders.deep_view());
    }
    let ghost folders_part = body@;
    let mut j: usize = 0;
    while j < files.len()
        invariant
            j <= files.len(),
            body@ =~= folders_part + file_rows(files.deep_view().take(j as int)),
        decreases files.len() - j,
    {
        let row = render_file_row(&files[j]);
        body.append(row.as_str());
        j = j + 1;
        proof {
            assert(files.deep_view().take(j as int).drop_last() =~= files.deep_view().take(j - 1));
            assert(files.deep_view().take(j as int).last() == files.deep_view()[j - 1]);
            assert(body@ =~= folders_part + file_rows(files.deep_view().take(j as int)));
        }
    }
    proof {
        assert(files.deep_view().take(files.len() as int) =~= files.deep_view());
    }
    let mut page = String::new();
    page.append("<html><head><title>");
    page.append("Index of ");
    page.append(base.as_str());
    page.append("</title><style>.external::marker { content: '\u{1f517} ' }</style></head><body><h1>");
    page.append("Index of ");
    page.append(base.as_str());
    page.append("</h1><p>\u{1f517} = File from another server</p><ul>");
    page.append(body.as_str());
    page.append("</ul></body></html>");
    proof {
        assert(page@ =~= listing_html(base@, locals.deep_view(), entries.deep_view()));
    }
    page
}

} // verus!
