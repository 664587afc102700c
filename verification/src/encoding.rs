use vstd::prelude::*;

verus! {

/// What percent-encoding a string with the C0-control set yields.
pub uninterp spec fn pct_encoded_of(s: Seq<char>) -> Seq<char>;

/// An ASCII character that the C0-control percent-encode set passes through.
pub open spec fn printable_ascii(c: char) -> bool {
    (c as u32) >= 0x20 && (c as u32) < 0x7f
}

/// Relies on percent_encoding::utf8_percent_encode with the CONTROLS set:
/// the result is a function of the input characters alone. Only bytes in
/// the set (the C0 controls and DEL) and non-ASCII bytes are rewritten, so
/// a string of printable ASCII comes back unchanged.
#[verifier::external_body]
pub(crate) fn encode_file_url(path: &str) -> (r: String)
    ensures
        r@ == pct_encoded_of(path@),
        (forall|i: int| 0 <= i < path@.len() ==> #[trigger] printable_ascii(path@[i])) ==> r@
            == path@,
{
    percent_encoding::utf8_percent_encode(path, percent_encoding::CONTROLS).to_string()
}

/// What percent-decoding a string yields.
pub uninterp spec fn pct_decoded_of(s: Seq<char>) -> Seq<char>;

/// Relies on percent_encoding::percent_decode_str and decode_utf8_lossy:
/// the result is a function of the input characters alone, and an input
/// without any `%` decodes to itself.
#[verifier::external_body]
pub(crate) fn decode_file_url(path: &str) -> (r: String)
    ensures
        r@ == pct_decoded_of(path@),
        (forall|i: int| 0 <= i < path@.len() ==> #[trigger] path@[i] != '%') ==> r@ == path@,
{
    percent_encoding::percent_decode_str(path).decode_utf8_lossy().to_string()
}

/// What escaping a string for HTML yields.
pub uninterp spec fn html_escaped_of(s: Seq<char>) -> Seq<char>;

/// Relies on v_htmlescape::escape_string: the result is a function of the
/// input characters alone. Exactly the six bytes `<`, `>`, `&`, `"`, `'`
/// and `/` are rewritten to entities, so a string without them comes back
/// unchanged.
#[verifier::external_body]
pub(crate) fn escape_html(s: &str) -> (r: String)
    ensures
        r@ == html_escaped_of(s@),
        (forall|i: int|
            0 <= i < s@.len() ==> #[trigger] s@[i] != '<' && s@[i] != '>' && s@[i] != '&'
                && s@[i] != '"' && s@[i] != '\'' && s@[i] != '/') ==> r@ == s@,
{
    let mut out = String::new();
    v_htmlescape::escape_string(s, &mut out);
    out
}

/// Relies on String::push: appends the given character to the end of the
/// string.
#[verifier::external_body]
pub(crate) fn push_char(s: &mut String, c: char)
    ensures
        final(s)@ == old(s)@.push(c),
{
    s.push(c);
}

/// What rendering a byte count for people yields.
pub uninterp spec fn human_size_of(n: u64) -> Seq<char>;

/// Relies on humansize::format_size with the DECIMAL options: the rendered
/// text is a function of the byte count alone.
#[verifier::external_body]
pub(crate) fn format_human_size(n: u64) -> (r: String)
    ensures
        r@ == human_size_of(n),
{
    humansize::format_size(n, humansize::DECIMAL)
}

} // verus!
