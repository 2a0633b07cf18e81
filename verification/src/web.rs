use vstd::prelude::*;

use crate::bytes::{contains_seq, contains_sub, find_last_sub_end, find_sub, find_subseq, last_sub_end, parse_dec, parse_i32, starts_with};
use crate::error::Error;
use crate::playlist::{lines_of, split_ch_from, split_lines, split_on, views_of};
use vstd::slice::{slice_subrange, slice_to_vec};
use vstd::string::StringSliceAdditionalSpecFns;

verus! {

/// The marker the account page carries when nobody is logged in.
pub open spec fn not_login_marker() -> Seq<u8> {
    "\"login_status\":\"not_login\"".spec_bytes()
}

/// Whether the fetched account page shows a logged-in session: true unless
/// the page carries the not-logged-in marker.
pub fn html_shows_login(html: &[u8]) -> (r: bool)
    ensures
        r == !contains_seq(html@, not_login_marker()),
{
    !contains_sub(html, "\"login_status\":\"not_login\"".as_bytes())
}

/// The notice an image page shows when the image was deleted.
pub open spec fn missing_page_marker() -> Seq<u8> {
    "ページが見つかりません".spec_bytes()
}

/// The notice an image page shows when the image is private.
pub open spec fn private_page_marker() -> Seq<u8> {
    "画像は非公開設定です".spec_bytes()
}

/// Whether the fetched image page reports a deleted image.
pub fn seiga_page_missing(html: &[u8]) -> (r: bool)
    ensures
        r == contains_seq(html@, missing_page_marker()),
{
    contains_sub(html, "ページが見つかりません".as_bytes())
}

/// Whether the fetched image page reports a private image.
pub fn seiga_page_private(html: &[u8]) -> (r: bool)
    ensures
        r == contains_seq(html@, private_page_marker()),
{
    contains_sub(html, "画像は非公開設定です".as_bytes())
}

/// Whether a fetched blob is an error page rather than image data.
pub fn blob_is_html(v: &[u8]) -> (r: bool)
    ensures
        r == "<html>".spec_bytes().is_prefix_of(v@),
{
    starts_with(v, "<html>".as_bytes())
}

/// The bytes that open a drawn-image blob whose source page is served
/// directly: a replacement character followed by `PNG`.
pub open spec fn oekaki_magic() -> Seq<u8> {
    seq![0xEFu8, 0xBFu8, 0xBDu8, 0x50u8, 0x4Eu8, 0x47u8]
}

/// Whether a fetched source page is itself a drawn-image blob.
pub fn blob_is_oekaki_png(v: &[u8]) -> (r: bool)
    ensures
        r == oekaki_magic().is_prefix_of(v@),
{
    let mut magic: Vec<u8> = Vec::new();
    magic.push(0xEF);
    magic.push(0xBF);
    magic.push(0xBD);
    magic.push(0x50);
    magic.push(0x4E);
    magic.push(0x47);
    assert(magic@ =~= oekaki_magic());
    starts_with(v, magic.as_slice())
}

/// The exit code with which the transcoder reports a too-long output file
/// name; that one failure is retried under a shorter name.
pub fn classify_transcode_status(code: Option<i32>) -> (r: Result<(), Error>)
    ensures
        match code {
            Some(c) => (c == 220 ==> r == Err::<(), Error>(Error::LongFileName)) && (c != 220
                ==> r == Ok::<(), Error>(())),
            None => r == Ok::<(), Error>(()),
        },
{
    match code {
        Some(220) => Err(Error::LongFileName),
        _ => Ok(()),
    }
}

/// Whether a series listing page was the last one: the total count is
/// within the pages fetched so far, a hundred items to the page.
pub fn series_page_done(total: i64, page: i64) -> (r: bool)
    ensures
        r == (total < page * 100),
{
    (total as i128) < (page as i128) * 100
}

/// The link prefix that marks an image entry in a listing page.
pub open spec fn seiga_link_marker() -> Seq<u8> {
    "<a href=\"/seiga/im".spec_bytes()
}

/// The path prefix stripped from an image link.
pub open spec fn seiga_path_prefix() -> Seq<u8> {
    "/seiga/".spec_bytes()
}

/// The image identifier one listing line yields: a line holding the image
/// link marker is split at quotation marks, the piece at `qi` must carry
/// the image path prefix, and the identifier follows it.
pub open spec fn image_id_of(line: Seq<u8>, qi: int) -> Option<Seq<u8>> {
    if contains_seq(line, seiga_link_marker()) {
        let ps = split_ch_from(line, 0x22, 0);
        if 0 <= qi < ps.len() && seiga_path_prefix().is_prefix_of(ps[qi]) {
            Some(ps[qi].skip(seiga_path_prefix().len() as int))
        } else {
            None
        }
    } else {
        None
    }
}

/// The image identifiers of the listing lines from `i` on.
pub open spec fn image_ids_from(lines: Seq<Seq<u8>>, i: int, qi: int) -> Seq<Seq<u8>>
    decreases lines.len() - i,
    when 0 <= i
{
    if i >= lines.len() {
        seq![]
    } else {
        match image_id_of(lines[i], qi) {
            Some(id) => seq![id] + image_ids_from(lines, i + 1, qi),
            None => image_ids_from(lines, i + 1, qi),
        }
    }
}

/// Extracts the image identifiers from a listing page: one for each line
/// that links an image, read from the piece at `qi` of the line split at
/// quotation marks.
pub fn extract_image_ids(html: &[u8], qi: usize) -> (r: Vec<Vec<u8>>)
    ensures
        views_of(r@) == image_ids_from(crate::playlist::lines_of(html@), 0, qi as int),
{
    let lines = crate::playlist::split_lines(html);
    let ghost lv = crate::playlist::lines_of(html@);
    let marker = "<a href=\"/seiga/im".as_bytes();
    let prefix = "/seiga/".as_bytes();
    let mut out: Vec<Vec<u8>> = Vec::new();
    let mut i: usize = 0;
    while i < lines.len()
        invariant
            0 <= i <= lines@.len(),
            views_of(lines@) == lv,
            marker@ == seiga_link_marker(),
            prefix@ == seiga_path_prefix(),
            views_of(out@) + image_ids_from(lv, i as int, qi as int) =~= image_ids_from(
                lv,
                0,
                qi as int,
            ),
        decreases lines@.len() - i,
    {
        let ghost old_out = out@;
        let l = lines[i].as_slice();
        assert(l@ == lv[i as int]);
        if contains_sub(l, marker) {
            let ps = split_on(l, 0x22);
            if qi < ps.len() && starts_with(ps[qi].as_slice(), prefix) {
                let piece = ps[qi].as_slice();
                let id = vstd::slice::slice_to_vec(
                    vstd::slice::slice_subrange(piece, prefix.len(), piece.len()),
                );
                assert(id@ =~= views_of(ps@)[qi as int].skip(seiga_path_prefix().len() as int));
                out.push(id);
                proof {
                    assert(views_of(out@) =~= views_of(old_out) + seq![out@[out@.len() - 1]@]);
                    assert(image_id_of(lv[i as int], qi as int) == Some(id@));
                }
            } else {
                assert(image_id_of(lv[i as int], qi as int) is None);
            }
        } else {
            assert(image_id_of(lv[i as int], qi as int) is None);
        }
        proof {
            assert(views_of(out@) + image_ids_from(lv, i + 1, qi as int) =~= image_ids_from(
                lv,
                0,
                qi as int,
            ));
        }
        i = i + 1;
    }
    assert(image_ids_from(lv, lines@.len() as int, qi as int) =~= Seq::<Seq<u8>>::empty());
    assert(views_of(out@) =~= image_ids_from(lv, 0, qi as int));
    out
}

/// The index of the first line at or after `i` that holds `marker`.
pub open spec fn first_line_with(lines: Seq<Seq<u8>>, marker: Seq<u8>, i: int) -> Option<int>
    decreases lines.len() - i,
    when 0 <= i
{
    if i >= lines.len() {
        None
    } else if contains_seq(lines[i], marker) {
        Some(i)
    } else {
        first_line_with(lines, marker, i + 1)
    }
}

/// Finds the first line that holds `marker` and hands it out.
fn find_line_with(lines: &Vec<Vec<u8>>, marker: &[u8]) -> (r: Option<usize>)
    ensures
        match r {
            Some(i) => i < lines@.len() && first_line_with(views_of(lines@), marker@, 0) == Some(
                i as int,
            ),
            None => first_line_with(views_of(lines@), marker@, 0) is None,
        },
{
    let mut i: usize = 0;
    loop
        invariant
            0 <= i <= lines@.len(),
            first_line_with(views_of(lines@), marker@, 0) == first_line_with(
                views_of(lines@),
                marker@,
                i as int,
            ),
        decreases lines@.len() - i,
    {
        if i >= lines.len() {
            return None;
        }
        if contains_sub(lines[i].as_slice(), marker) {
            return Some(i);
        }
        i = i + 1;
    }
}

/// The text up to the first occurrence of `pat`; all of `s` without one.
pub open spec fn until_sub(s: Seq<u8>, pat: Seq<u8>) -> Seq<u8> {
    let i = find_sub(s, pat, 0);
    if i < 0 {
        s
    } else {
        s.take(i)
    }
}

/// Copies the text up to the first occurrence of `pat`.
fn take_until_sub(s: &[u8], pat: &[u8]) -> (r: Vec<u8>)
    ensures
        r@ == until_sub(s@, pat@),
{
    match find_subseq(s, pat, 0) {
        Some(i) => slice_to_vec(slice_subrange(s, 0, i)),
        None => slice_to_vec(s),
    }
}

/// The line a clip listing marks as the current page position.
pub open spec fn page_now_marker() -> Seq<u8> {
    "<span class=\"page_now\">".spec_bytes()
}

/// The marker of a page position without a follow-up page.
pub open spec fn nolink_marker() -> Seq<u8> {
    "<span class=\"nolink\">".spec_bytes()
}

/// The link that precedes the next page's number in a clip listing.
pub open spec fn page_link_prefix() -> Seq<u8> {
    "<span><a href=\"?page=".spec_bytes()
}

/// The escaped ampersand that ends a page number in a link.
pub open spec fn amp_sep() -> Seq<u8> {
    "&amp;".spec_bytes()
}

/// The next page a clip listing points at. The outer option reports a
/// malformed page; the inner one is empty on the last page. The page
/// marker's last segment after the vertical bar carries either the
/// no-follow-up marker or the next page's link.
pub open spec fn clips_next_page_of(html: Seq<u8>) -> Option<Option<int>> {
    match first_line_with(lines_of(html), page_now_marker(), 0) {
        None => None,
        Some(li) => {
            let seg = split_ch_from(lines_of(html)[li], 0x7C, 0).last();
            if contains_seq(seg, nolink_marker()) {
                Some(None)
            } else if page_link_prefix().is_prefix_of(seg) {
                let num = until_sub(seg.skip(page_link_prefix().len() as int), amp_sep());
                match parse_dec(num) {
                    Some(v) => Some(Some(v)),
                    None => None,
                }
            } else {
                None
            }
        },
    }
}

/// Reads the next page out of a clip listing page. `None` stands for a
/// page whose pagination markup could not be read, and on a page number
/// beyond the type's range.
pub fn clips_next_page(html: &[u8]) -> (r: Option<Option<i32>>)
    ensures
        match r {
            Some(opt) => match opt {
                None => clips_next_page_of(html@) == Some(Option::<int>::None),
                Some(v) => clips_next_page_of(html@) == Some(Some(v as int)),
            },
            None => clips_next_page_of(html@) is None || (clips_next_page_of(
                html@,
            ).unwrap() matches Some(big) && big > i32::MAX),
        },
{
    let lines = split_lines(html);
    let li = match find_line_with(&lines, "<span class=\"page_now\">".as_bytes()) {
        Some(li) => li,
        None => {
            return None;
        },
    };
    let pieces = split_on(lines[li].as_slice(), 0x7C);
    assert(pieces@.len() > 0);
    let seg = pieces[pieces.len() - 1].as_slice();
    assert(seg@ == split_ch_from(lines_of(html@)[li as int], 0x7C, 0).last());
    if contains_sub(seg, "<span class=\"nolink\">".as_bytes()) {
        return Some(None);
    }
    let prefix = "<span><a href=\"?page=".as_bytes();
    if !starts_with(seg, prefix) {
        return None;
    }
    let rest = slice_subrange(seg, prefix.len(), seg.len());
    assert(rest@ =~= seg@.skip(page_link_prefix().len() as int));
    let num = take_until_sub(rest, "&amp;".as_bytes());
    match parse_i32(num.as_slice()) {
        Some(v) => Some(Some(v)),
        None => None,
    }
}

/// The marker of the next-page element in a tag listing.
pub open spec fn tags_next_marker() -> Seq<u8> {
    "li class=\"next".spec_bytes()
}

/// The marker of a disabled next-page element.
pub open spec fn next_disabled_marker() -> Seq<u8> {
    "next disabled".spec_bytes()
}

/// The query prefix that precedes the next page's number in a tag listing.
pub open spec fn page_query() -> Seq<u8> {
    "?page=".spec_bytes()
}

/// The next page a tag listing points at: the number after the last page
/// query of the next-page element, unless that element is disabled.
pub open spec fn tags_next_page_of(html: Seq<u8>) -> Option<Option<int>> {
    match first_line_with(lines_of(html), tags_next_marker(), 0) {
        None => None,
        Some(li) => {
            let line = lines_of(html)[li];
            if contains_seq(line, next_disabled_marker()) {
                Some(None)
            } else {
                let num = until_sub(line.skip(last_sub_end(line, page_query(), 0)), amp_sep());
                match parse_dec(num) {
                    Some(v) => Some(Some(v)),
                    None => None,
                }
            }
        },
    }
}

/// Reads the next page out of a tag listing page, as `clips_next_page`
/// does for clip listings.
pub fn tags_next_page(html: &[u8]) -> (r: Option<Option<i32>>)
    ensures
        match r {
            Some(opt) => match opt {
                None => tags_next_page_of(html@) == Some(Option::<int>::None),
                Some(v) => tags_next_page_of(html@) == Some(Some(v as int)),
            },
            None => tags_next_page_of(html@) is None || (tags_next_page_of(
                html@,
            ).unwrap() matches Some(big) && big > i32::MAX),
        },
{
    let lines = split_lines(html);
    let li = match find_line_with(&lines, "li class=\"next".as_bytes()) {
        Some(li) => li,
        None => {
            return None;
        },
    };
    let line = lines[li].as_slice();
    assert(line@ == lines_of(html@)[li as int]);
    if contains_sub(line, "next disabled".as_bytes()) {
        return Some(None);
    }
    let query = "?page=".as_bytes();
    proof {
        reveal_strlit("?page=");
        assert(vstd::utf8::is_ascii_chars("?page="@));
        vstd::utf8::is_ascii_chars_encode_utf8("?page="@);
        assert(page_query().len() == 6);
    }
    let after = find_last_sub_end(line, query);
    let rest = slice_subrange(line, after, line.len());
    assert(rest@ =~= line@.skip(last_sub_end(line@, page_query(), 0)));
    let num = take_until_sub(rest, "&amp;".as_bytes());
    match parse_i32(num.as_slice()) {
        Some(v) => Some(Some(v)),
        None => None,
    }
}

/// The attribute marker of the line that carries an image's source URL.
pub open spec fn data_src_marker() -> Seq<u8> {
    "data-src".spec_bytes()
}

/// The image source a served page points at: the quoted value on the first
/// line that carries the source attribute.
pub open spec fn data_src_of(html: Seq<u8>) -> Option<Seq<u8>> {
    match first_line_with(lines_of(html), data_src_marker(), 0) {
        None => None,
        Some(li) => {
            let ps = split_ch_from(lines_of(html)[li], 0x22, 0);
            if ps.len() > 1 {
                Some(ps[1])
            } else {
                None
            }
        },
    }
}

/// Reads the image source URL out of a served source page.
pub fn extract_data_src(html: &[u8]) -> (r: Option<Vec<u8>>)
    ensures
        match r {
            Some(v) => data_src_of(html@) == Some(v@),
            None => data_src_of(html@) is None,
        },
{
    let lines = split_lines(html);
    match find_line_with(&lines, "data-src".as_bytes()) {
        Some(li) => {
            let ps = split_on(lines[li].as_slice(), 0x22);
            assert(views_of(ps@) == split_ch_from(lines_of(html@)[li as int], 0x22, 0));
            if ps.len() > 1 {
                Some(slice_to_vec(ps[1].as_slice()))
            } else {
                None
            }
        },
        None => None,
    }
}

} // verus!
