use vstd::prelude::*;

use crate::bytes::{ends_with, find_byte, find_ch, hex_decode, hex_decode_seq, lemma_find_ch_bounds, push_all, slice_eq, starts_with};
use crate::error::Error;
use vstd::slice::{slice_subrange, slice_to_vec};
use vstd::string::StringSliceAdditionalSpecFns;

verus! {

/// The views of a sequence of byte vectors.
pub open spec fn views_of(v: Seq<Vec<u8>>) -> Seq<Seq<u8>> {
    Seq::new(v.len(), |i: int| v[i]@)
}

/// A line with one trailing carriage return removed.
pub open spec fn strip_cr(l: Seq<u8>) -> Seq<u8> {
    if l.len() > 0 && l[l.len() - 1] == 0x0D {
        l.drop_last()
    } else {
        l
    }
}

/// The lines of `s` from position `p` on: split at each line feed, each line
/// stripped of one trailing carriage return. A trailing line feed yields no
/// empty final line.
pub open spec fn lines_from(s: Seq<u8>, p: int) -> Seq<Seq<u8>>
    decreases s.len() - p,
    when 0 <= p
{
    if p >= s.len() {
        seq![]
    } else {
        let e = find_ch(s, 0x0A, p);
        proof {
            lemma_find_ch_bounds(s, 0x0A, p);
        }
        if e >= s.len() {
            seq![strip_cr(s.subrange(p, s.len() as int))]
        } else {
            seq![strip_cr(s.subrange(p, e))] + lines_from(s, e + 1)
        }
    }
}

/// All lines of `s`.
pub open spec fn lines_of(s: Seq<u8>) -> Seq<Seq<u8>> {
    lines_from(s, 0)
}

/// Copies `s[p .. e]` with one trailing carriage return removed.
fn take_line(s: &[u8], p: usize, e: usize) -> (r: Vec<u8>)
    requires
        p <= e <= s@.len(),
    ensures
        r@ == strip_cr(s@.subrange(p as int, e as int)),
{
    let mut r = slice_to_vec(slice_subrange(s, p, e));
    if r.len() > 0 && r[r.len() - 1] == 0x0D {
        r.pop();
        assert(r@ =~= strip_cr(s@.subrange(p as int, e as int)));
    }
    r
}

/// Splits `s` into its lines.
pub fn split_lines(s: &[u8]) -> (r: Vec<Vec<u8>>)
    ensures
        views_of(r@) == lines_of(s@),
{
    let mut out: Vec<Vec<u8>> = Vec::new();
    let mut p: usize = 0;
    while p < s.len()
        invariant
            0 <= p <= s@.len(),
            views_of(out@) + lines_from(s@, p as int) =~= lines_of(s@),
        decreases s@.len() - p,
    {
        let ghost old_out = out@;
        match find_byte(s, 0x0A, p) {
            Some(e) => {
                out.push(take_line(s, p, e));
                p = e + 1;
            },
            None => {
                out.push(take_line(s, p, s.len()));
                p = s.len();
            },
        }
        proof {
            assert(views_of(out@) =~= views_of(old_out) + seq![out@[out@.len() - 1]@]);
            assert(views_of(out@) + lines_from(s@, p as int) =~= lines_of(s@));
        }
    }
    assert(views_of(out@) =~= lines_of(s@));
    out
}

/// The first top-level comma at or after `from`: quotation marks toggle the
/// in-quotes state and commas inside quotes do not count; `s.len()` when
/// there is none.
pub open spec fn find_comma(s: Seq<u8>, from: int, inq: bool) -> int
    decreases s.len() - from,
{
    if from < 0 || from >= s.len() {
        s.len() as int
    } else if !inq && s[from] == 0x2C {
        from
    } else {
        find_comma(s, from + 1, if s[from] == 0x22 {
            !inq
        } else {
            inq
        })
    }
}

pub proof fn lemma_find_comma_bounds(s: Seq<u8>, from: int, inq: bool)
    requires
        0 <= from <= s.len(),
    ensures
        from <= find_comma(s, from, inq) <= s.len(),
    decreases s.len() - from,
{
    if from < s.len() && !(!inq && s[from] == 0x2C) {
        lemma_find_comma_bounds(s, from + 1, if s[from] == 0x22 {
            !inq
        } else {
            inq
        });
    }
}

/// The attribute pieces of a tag line's attribute text, split at top-level
/// commas, each piece kept verbatim.
pub open spec fn attrs_from(s: Seq<u8>, p: int) -> Seq<Seq<u8>>
    decreases s.len() - p,
    when 0 <= p
{
    if p > s.len() {
        seq![]
    } else {
        let e = find_comma(s, p, false);
        proof {
            if p <= s.len() {
                lemma_find_comma_bounds(s, p, false);
            }
        }
        if e >= s.len() {
            seq![s.subrange(p, s.len() as int)]
        } else {
            seq![s.subrange(p, e)] + attrs_from(s, e + 1)
        }
    }
}

/// The attribute pieces of `s`.
pub open spec fn attrs_of(s: Seq<u8>) -> Seq<Seq<u8>> {
    attrs_from(s, 0)
}

/// Finds the first top-level comma at or after `from`.
fn find_comma_at(s: &[u8], from: usize) -> (r: usize)
    requires
        from <= s@.len(),
    ensures
        r == find_comma(s@, from as int, false),
        from <= r <= s@.len(),
{
    let mut i: usize = from;
    let mut inq: bool = false;
    loop
        invariant
            from <= i <= s@.len(),
            find_comma(s@, from as int, false) == find_comma(s@, i as int, inq),
        decreases s@.len() - i,
    {
        proof {
            lemma_find_comma_bounds(s@, i as int, inq);
        }
        if i >= s.len() {
            return i;
        }
        if !inq && s[i] == 0x2C {
            return i;
        }
        if s[i] == 0x22 {
            inq = !inq;
        }
        i = i + 1;
    }
}

/// Splits a tag line's attribute text into its pieces.
pub fn split_attrs(s: &[u8]) -> (r: Vec<Vec<u8>>)
    ensures
        views_of(r@) == attrs_of(s@),
{
    let mut out: Vec<Vec<u8>> = Vec::new();
    let mut p: usize = 0;
    loop
        invariant
            0 <= p <= s@.len(),
            views_of(out@) + attrs_from(s@, p as int) =~= attrs_of(s@),
        decreases s@.len() + 1 - p,
    {
        let ghost old_out = out@;
        let e = find_comma_at(s, p);
        out.push(slice_to_vec(slice_subrange(s, p, e)));
        proof {
            assert(views_of(out@) =~= views_of(old_out) + seq![out@[out@.len() - 1]@]);
        }
        if e >= s.len() {
            proof {
                assert(attrs_from(s@, p as int) =~= seq![s@.subrange(p as int, s@.len() as int)]);
                assert(views_of(out@) =~= attrs_of(s@));
            }
            return out;
        }
        proof {
            assert(attrs_from(s@, p as int) =~= seq![s@.subrange(p as int, e as int)]
                + attrs_from(s@, e + 1));
        }
        p = e + 1;
        proof {
            assert(views_of(out@) + attrs_from(s@, p as int) =~= attrs_of(s@));
        }
    }
}

/// The tag that opens a segment-key line of a media playlist.
pub open spec fn tag_key() -> Seq<u8> {
    "#EXT-X-KEY:".spec_bytes()
}

/// The tag that opens an initialization-map line of a media playlist.
pub open spec fn tag_map() -> Seq<u8> {
    "#EXT-X-MAP:".spec_bytes()
}

/// The tag that opens a variant-stream line of a master playlist.
pub open spec fn tag_stream() -> Seq<u8> {
    "#EXT-X-STREAM-INF:".spec_bytes()
}

/// The tag that opens an alternative-rendition line of a master playlist.
pub open spec fn tag_media() -> Seq<u8> {
    "#EXT-X-MEDIA:".spec_bytes()
}

pub open spec fn is_key_line(l: Seq<u8>) -> bool {
    tag_key().is_prefix_of(l)
}

pub open spec fn is_map_line(l: Seq<u8>) -> bool {
    tag_map().is_prefix_of(l)
}

pub open spec fn is_stream_line(l: Seq<u8>) -> bool {
    tag_stream().is_prefix_of(l)
}

pub open spec fn is_media_line(l: Seq<u8>) -> bool {
    tag_media().is_prefix_of(l)
}

/// A non-empty line that is no tag or comment: a segment or variant URI.
pub open spec fn is_uri_line(l: Seq<u8>) -> bool {
    l.len() > 0 && l[0] != 0x23
}

/// One line of a media playlist. A key or initialization-map tag keeps its
/// attribute pieces; a segment URI stands alone; every other line is kept
/// verbatim, so that the rewritten playlist loses nothing.
pub enum MediaItem {
    Key(Vec<Vec<u8>>),
    InitMap(Vec<Vec<u8>>),
    SegmentUri(Vec<u8>),
    Line(Vec<u8>),
}

/// An ordered media playlist: segment URIs, at most one key reference of
/// interest, optional initialization maps, and the remaining lines verbatim.
pub struct MediaPlaylist {
    pub items: Vec<MediaItem>,
}

/// One entry of a master playlist. A variant stream keeps its attribute
/// pieces and the URI line that follows its tag; an alternative rendition
/// keeps its attribute pieces; every other line is kept verbatim.
pub enum MasterItem {
    Media(Vec<Vec<u8>>),
    Stream(Vec<Vec<u8>>, Vec<u8>),
    Line(Vec<u8>),
}

/// An ordered master playlist: variant streams and alternative renditions,
/// with the remaining lines verbatim.
pub struct MasterPlaylist {
    pub items: Vec<MasterItem>,
}

/// How one media-playlist line is represented: tag lines for keys and maps
/// carry their attribute pieces, URI lines their text, all others stay
/// verbatim.
pub open spec fn media_item_for(l: Seq<u8>, it: MediaItem) -> bool {
    if is_key_line(l) {
        it matches MediaItem::Key(a) && views_of(a@) == attrs_of(l.skip(tag_key().len() as int))
    } else if is_map_line(l) {
        it matches MediaItem::InitMap(a) && views_of(a@) == attrs_of(l.skip(tag_map().len() as int))
    } else if is_uri_line(l) {
        it matches MediaItem::SegmentUri(u) && u@ == l
    } else {
        it matches MediaItem::Line(r) && r@ == l
    }
}

/// Parses the text of a media playlist, one item per line.
pub fn parse_media_playlist(src: &[u8]) -> (r: MediaPlaylist)
    ensures
        r.items@.len() == lines_of(src@).len(),
        forall|i: int| 0 <= i < r.items@.len() ==> media_item_for(
            lines_of(src@)[i],
            #[trigger] r.items@[i],
        ),
{
    let lines = split_lines(src);
    let tk = "#EXT-X-KEY:".as_bytes();
    let tm = "#EXT-X-MAP:".as_bytes();
    let mut items: Vec<MediaItem> = Vec::new();
    let mut i: usize = 0;
    while i < lines.len()
        invariant
            tk@ == tag_key(),
            tm@ == tag_map(),
            views_of(lines@) == lines_of(src@),
            0 <= i <= lines@.len(),
            items@.len() == i,
            forall|j: int| 0 <= j < i ==> media_item_for(lines_of(src@)[j], #[trigger] items@[j]),
        decreases lines@.len() - i,
    {
        let l = lines[i].as_slice();
        assert(l@ == lines_of(src@)[i as int]);
        let it: MediaItem = if starts_with(l, tk) {
            let rest = slice_subrange(l, tk.len(), l.len());
            assert(rest@ =~= l@.skip(tag_key().len() as int));
            MediaItem::Key(split_attrs(rest))
        } else if starts_with(l, tm) {
            let rest = slice_subrange(l, tm.len(), l.len());
            assert(rest@ =~= l@.skip(tag_map().len() as int));
            MediaItem::InitMap(split_attrs(rest))
        } else if l.len() > 0 && l[0] != 0x23 {
            MediaItem::SegmentUri(slice_to_vec(l))
        } else {
            MediaItem::Line(slice_to_vec(l))
        };
        items.push(it);
        i = i + 1;
    }
    MediaPlaylist { items }
}

/// How master-playlist lines from `li` on are represented by the items from
/// `ii` on: a variant-stream tag and the URI line after it make one item,
/// an alternative-rendition tag makes one, every other line stays verbatim.
pub open spec fn master_items_for(
    lines: Seq<Seq<u8>>,
    li: int,
    items: Seq<MasterItem>,
    ii: int,
) -> bool
    decreases lines.len() - li,
    when 0 <= li
{
    if li >= lines.len() {
        ii == items.len()
    } else if is_stream_line(lines[li]) && li + 1 < lines.len() {
        &&& 0 <= ii < items.len()
        &&& (items[ii] matches MasterItem::Stream(a, u) && views_of(a@) == attrs_of(
            lines[li].skip(tag_stream().len() as int),
        ) && u@ == lines[li + 1])
        &&& master_items_for(lines, li + 2, items, ii + 1)
    } else if is_media_line(lines[li]) {
        &&& 0 <= ii < items.len()
        &&& (items[ii] matches MasterItem::Media(a) && views_of(a@) == attrs_of(
            lines[li].skip(tag_media().len() as int),
        ))
        &&& master_items_for(lines, li + 1, items, ii + 1)
    } else {
        &&& 0 <= ii < items.len()
        &&& (items[ii] matches MasterItem::Line(r) && r@ == lines[li])
        &&& master_items_for(lines, li + 1, items, ii + 1)
    }
}

fn parse_master_from(lines: &Vec<Vec<u8>>, li: usize, out: &mut Vec<MasterItem>)
    requires
        li <= lines@.len(),
    ensures
        final(out)@.len() >= old(out)@.len(),
        final(out)@.subrange(0, old(out)@.len() as int) == old(out)@,
        master_items_for(views_of(lines@), li as int, final(out)@, old(out)@.len() as int),
    decreases lines@.len() - li,
{
    let ts = "#EXT-X-STREAM-INF:".as_bytes();
    let ta = "#EXT-X-MEDIA:".as_bytes();
    if li >= lines.len() {
        assert(out@.subrange(0, old(out)@.len() as int) =~= old(out)@);
        return ;
    }
    let l = lines[li].as_slice();
    assert(l@ == views_of(lines@)[li as int]);
    if starts_with(l, ts) && li + 1 < lines.len() {
        let rest = slice_subrange(l, ts.len(), l.len());
        assert(rest@ =~= l@.skip(tag_stream().len() as int));
        let uri = slice_to_vec(lines[li + 1].as_slice());
        out.push(MasterItem::Stream(split_attrs(rest), uri));
        let ghost mid = out@;
        parse_master_from(lines, li + 2, out);
        assert(out@[mid.len() - 1] == mid[mid.len() - 1]);
    } else if starts_with(l, ta) {
        let rest = slice_subrange(l, ta.len(), l.len());
        assert(rest@ =~= l@.skip(tag_media().len() as int));
        out.push(MasterItem::Media(split_attrs(rest)));
        let ghost mid = out@;
        parse_master_from(lines, li + 1, out);
        assert(out@[mid.len() - 1] == mid[mid.len() - 1]);
    } else {
        out.push(MasterItem::Line(slice_to_vec(l)));
        let ghost mid = out@;
        parse_master_from(lines, li + 1, out);
        assert(out@[mid.len() - 1] == mid[mid.len() - 1]);
    }
    assert(out@.subrange(0, old(out)@.len() as int) =~= old(out)@);
}

/// Parses the text of a master playlist.
pub fn parse_master_playlist(src: &[u8]) -> (r: MasterPlaylist)
    ensures
        master_items_for(lines_of(src@), 0, r.items@, 0),
{
    let lines = split_lines(src);
    let mut items: Vec<MasterItem> = Vec::new();
    parse_master_from(&lines, 0, &mut items);
    MasterPlaylist { items }
}

/// The attribute name of a piece: the text before the first equals sign.
pub open spec fn attr_name(p: Seq<u8>) -> Seq<u8> {
    p.take(find_ch(p, 0x3D, 0))
}

/// The attribute value of a piece: the text after the first equals sign;
/// empty when there is none.
pub open spec fn attr_value(p: Seq<u8>) -> Seq<u8> {
    if find_ch(p, 0x3D, 0) >= p.len() {
        seq![]
    } else {
        p.skip(find_ch(p, 0x3D, 0) + 1)
    }
}

/// A value with one layer of surrounding quotation marks removed.
pub open spec fn unquote(v: Seq<u8>) -> Seq<u8> {
    if v.len() >= 2 && v[0] == 0x22 && v[v.len() - 1] == 0x22 {
        v.subrange(1, v.len() - 1)
    } else {
        v
    }
}

/// The first piece at or after `i` whose name is `name`.
pub open spec fn find_attr_from(attrs: Seq<Seq<u8>>, name: Seq<u8>, i: int) -> Option<int>
    decreases attrs.len() - i,
    when 0 <= i
{
    if i >= attrs.len() {
        None
    } else if attr_name(attrs[i]) == name {
        Some(i)
    } else {
        find_attr_from(attrs, name, i + 1)
    }
}

/// The raw value of the first attribute named `name`.
pub open spec fn attr_lookup(attrs: Seq<Seq<u8>>, name: Seq<u8>) -> Option<Seq<u8>> {
    match find_attr_from(attrs, name, 0) {
        Some(i) => Some(attr_value(attrs[i])),
        None => None,
    }
}

/// Whether the piece's attribute name is `name`.
fn attr_name_matches(p: &[u8], name: &[u8]) -> (r: bool)
    ensures
        r == (attr_name(p@) == name@),
{
    proof {
        lemma_find_ch_bounds(p@, 0x3D, 0);
    }
    match find_byte(p, 0x3D, 0) {
        Some(e) => {
            let nm = slice_subrange(p, 0, e);
            assert(nm@ =~= attr_name(p@));
            slice_eq(nm, name)
        },
        None => {
            assert(p@ =~= attr_name(p@));
            slice_eq(p, name)
        },
    }
}

/// Finds the first attribute piece named `name`.
fn attr_find(attrs: &Vec<Vec<u8>>, name: &[u8]) -> (r: Option<usize>)
    ensures
        match r {
            Some(i) => i < attrs@.len() && find_attr_from(views_of(attrs@), name@, 0) == Some(
                i as int,
            ),
            None => find_attr_from(views_of(attrs@), name@, 0) is None,
        },
{
    let mut i: usize = 0;
    loop
        invariant
            0 <= i <= attrs@.len(),
            find_attr_from(views_of(attrs@), name@, 0) == find_attr_from(
                views_of(attrs@),
                name@,
                i as int,
            ),
        decreases attrs@.len() - i,
    {
        if i >= attrs.len() {
            return None;
        }
        if attr_name_matches(attrs[i].as_slice(), name) {
            return Some(i);
        }
        i = i + 1;
    }
}

/// Looks up the raw value of the attribute named `name`.
pub fn attr_get(attrs: &Vec<Vec<u8>>, name: &[u8]) -> (r: Option<Vec<u8>>)
    ensures
        match r {
            Some(v) => attr_lookup(views_of(attrs@), name@) == Some(v@),
            None => attr_lookup(views_of(attrs@), name@) is None,
        },
{
    match attr_find(attrs, name) {
        Some(i) => {
            let piece = attrs[i].as_slice();
            let pl = piece.len();
            proof {
                lemma_find_ch_bounds(piece@, 0x3D, 0);
            }
            match find_byte(piece, 0x3D, 0) {
                Some(e) => {
                    let v = slice_subrange(piece, e + 1, pl);
                    assert(v@ =~= attr_value(piece@));
                    Some(slice_to_vec(v))
                },
                None => {
                    assert(attr_value(piece@) =~= Seq::<u8>::empty());
                    Some(Vec::new())
                },
            }
        },
        None => None,
    }
}

/// Removes one layer of surrounding quotation marks, if both are present.
pub fn unquote_bytes(v: &[u8]) -> (r: Vec<u8>)
    ensures
        r@ == unquote(v@),
{
    if v.len() >= 2 && v[0] == 0x22 && v[v.len() - 1] == 0x22 {
        let r = slice_to_vec(slice_subrange(v, 1, v.len() - 1));
        assert(r@ =~= unquote(v@));
        r
    } else {
        slice_to_vec(v)
    }
}

/// The pieces of `s` split at every occurrence of `c`.
pub open spec fn split_ch_from(s: Seq<u8>, c: u8, p: int) -> Seq<Seq<u8>>
    decreases s.len() - p,
    when 0 <= p
{
    if p > s.len() {
        seq![]
    } else {
        let e = find_ch(s, c, p);
        proof {
            if p <= s.len() {
                lemma_find_ch_bounds(s, c, p);
            }
        }
        if e >= s.len() {
            seq![s.subrange(p, s.len() as int)]
        } else {
            seq![s.subrange(p, e)] + split_ch_from(s, c, e + 1)
        }
    }
}

/// Splits `s` at every occurrence of `c`.
pub fn split_on(s: &[u8], c: u8) -> (r: Vec<Vec<u8>>)
    ensures
        views_of(r@) == split_ch_from(s@, c, 0),
{
    let sl = s.len();
    let mut out: Vec<Vec<u8>> = Vec::new();
    let mut p: usize = 0;
    loop
        invariant
            sl == s@.len(),
            0 <= p <= s@.len(),
            views_of(out@) + split_ch_from(s@, c, p as int) =~= split_ch_from(s@, c, 0),
        decreases s@.len() + 1 - p,
    {
        let ghost old_out = out@;
        proof {
            lemma_find_ch_bounds(s@, c, p as int);
        }
        match find_byte(s, c, p) {
            Some(e) => {
                out.push(slice_to_vec(slice_subrange(s, p, e)));
                proof {
                    assert(views_of(out@) =~= views_of(old_out) + seq![out@[out@.len() - 1]@]);
                    assert(split_ch_from(s@, c, p as int) =~= seq![
                        s@.subrange(p as int, e as int),
                    ] + split_ch_from(s@, c, e + 1));
                }
                p = e + 1;
                proof {
                    assert(views_of(out@) + split_ch_from(s@, c, p as int) =~= split_ch_from(
                        s@,
                        c,
                        0,
                    ));
                }
            },
            None => {
                out.push(slice_to_vec(slice_subrange(s, p, s.len())));
                proof {
                    assert(views_of(out@) =~= views_of(old_out) + seq![out@[out@.len() - 1]@]);
                    assert(split_ch_from(s@, c, p as int) =~= seq![
                        s@.subrange(p as int, s@.len() as int),
                    ]);
                    assert(views_of(out@) =~= split_ch_from(s@, c, 0));
                }
                return out;
            },
        }
    }
}

/// The URL with its query string removed.
pub open spec fn query_stripped(url: Seq<u8>) -> Seq<u8> {
    url.take(find_ch(url, 0x3F, 0))
}

/// The last of the pieces that ends with `ext`.
pub open spec fn last_match(parts: Seq<Seq<u8>>, ext: Seq<u8>) -> Option<Seq<u8>>
    decreases parts.len(),
{
    if parts.len() == 0 {
        None
    } else if ext.is_suffix_of(parts.last()) {
        Some(parts.last())
    } else {
        last_match(parts.drop_last(), ext)
    }
}

/// The local file name a segment URL maps to: the query string is stripped,
/// the path is split at every slash, and the last component ending with the
/// wanted extension is taken.
pub open spec fn local_name(url: Seq<u8>, ext: Seq<u8>) -> Option<Seq<u8>> {
    last_match(split_ch_from(query_stripped(url), 0x2F, 0), ext)
}

/// Derives a segment's local file name from its URL.
pub fn url_to_filename(url: &[u8], extension: &[u8]) -> (r: Option<Vec<u8>>)
    ensures
        match r {
            Some(v) => local_name(url@, extension@) == Some(v@),
            None => local_name(url@, extension@) is None,
        },
{
    proof {
        lemma_find_ch_bounds(url@, 0x3F, 0);
    }
    let path: &[u8] = match find_byte(url, 0x3F, 0) {
        Some(q) => slice_subrange(url, 0, q),
        None => url,
    };
    assert(path@ =~= query_stripped(url@));
    let parts = split_on(path, 0x2F);
    let ghost pv = views_of(parts@);
    let mut k: usize = parts.len();
    assert(pv.take(parts@.len() as int) =~= pv);
    loop
        invariant
            0 <= k <= parts@.len(),
            pv == views_of(parts@),
            local_name(url@, extension@) == last_match(pv.take(k as int), extension@),
        decreases k,
    {
        if k == 0 {
            assert(pv.take(0).len() == 0);
            return None;
        }
        let piece = parts[k - 1].as_slice();
        assert(piece@ == pv.take(k as int).last());
        if ends_with(piece, extension) {
            return Some(slice_to_vec(piece));
        }
        assert(pv.take(k as int).drop_last() =~= pv.take(k - 1));
        k = k - 1;
    }
}

/// The name of the URI attribute.
pub open spec fn attr_uri() -> Seq<u8> {
    "URI".spec_bytes()
}

/// The name of the initialization-vector attribute.
pub open spec fn attr_iv() -> Seq<u8> {
    "IV".spec_bytes()
}

/// The index of the first key item at or after `i`.
pub open spec fn first_key_from(items: Seq<MediaItem>, i: int) -> Option<int>
    decreases items.len() - i,
    when 0 <= i
{
    if i >= items.len() {
        None
    } else if items[i] is Key {
        Some(i)
    } else {
        first_key_from(items, i + 1)
    }
}

/// The attribute pieces of the key item at `i`.
pub open spec fn key_attrs_at(items: Seq<MediaItem>, i: int) -> Seq<Seq<u8>> {
    match items[i] {
        MediaItem::Key(a) => views_of(a@),
        _ => seq![],
    }
}

/// The key reference of a media playlist: where the first key tag stands,
/// its unquoted key URI, and its raw initialization-vector attribute.
pub struct KeyRef {
    pub index: usize,
    pub uri: Vec<u8>,
    pub iv: Vec<u8>,
}

/// Scans the playlist for its first key tag. `Ok(None)` when no item
/// carries one; the key URI and initialization-vector attributes must both
/// be present on the tag that is found.
pub fn key_query(p: &MediaPlaylist) -> (r: Result<Option<KeyRef>, Error>)
    ensures
        match r {
            Ok(opt) => match opt {
                None => first_key_from(p.items@, 0) is None,
                Some(kr) => {
                    &&& first_key_from(p.items@, 0) == Some(kr.index as int)
                    &&& (attr_lookup(key_attrs_at(p.items@, kr.index as int), attr_uri())
                        matches Some(u) && kr.uri@ == unquote(u))
                    &&& attr_lookup(key_attrs_at(p.items@, kr.index as int), attr_iv()) == Some(
                        kr.iv@,
                    )
                },
            },
            Err(e) => {
                &&& e == Error::ParsePlaylist
                &&& (first_key_from(p.items@, 0) matches Some(i) && (attr_lookup(
                    key_attrs_at(p.items@, i),
                    attr_uri(),
                ) is None || attr_lookup(key_attrs_at(p.items@, i), attr_iv()) is None))
            },
        },
{
    let mut i: usize = 0;
    loop
        invariant
            0 <= i <= p.items@.len(),
            first_key_from(p.items@, 0) == first_key_from(p.items@, i as int),
        decreases p.items@.len() - i,
    {
        if i >= p.items.len() {
            return Ok(None);
        }
        match &p.items[i] {
            MediaItem::Key(a) => {
                assert(key_attrs_at(p.items@, i as int) == views_of(a@));
                let uri = attr_get(a, "URI".as_bytes());
                let iv = attr_get(a, "IV".as_bytes());
                match (uri, iv) {
                    (Some(u), Some(v)) => {
                        return Ok(
                            Some(KeyRef { index: i, uri: unquote_bytes(u.as_slice()), iv: v }),
                        );
                    },
                    _ => {
                        return Err(Error::ParsePlaylist);
                    },
                }
            },
            _ => {
                i = i + 1;
            },
        }
    }
}

/// The 16-byte key and 16-byte initialization vector shared by all
/// decrypting workers of one playlist.
pub struct KeyMaterial {
    pub key: Vec<u8>,
    pub iv: Vec<u8>,
}

/// Both halves of the key material are 16 bytes long.
pub open spec fn key_material_wf(km: KeyMaterial) -> bool {
    km.key@.len() == 16 && km.iv@.len() == 16
}

/// The initialization vector an IV attribute denotes: a `0x`- or
/// `0X`-prefixed string of 32 hexadecimal digits, decoded to 16 bytes.
pub open spec fn iv_of_attr(iv_attr: Seq<u8>) -> Option<Seq<u8>> {
    if iv_attr.len() == 34 && iv_attr[0] == 0x30 && (iv_attr[1] == 0x78 || iv_attr[1] == 0x58) {
        hex_decode_seq(iv_attr.skip(2))
    } else {
        None
    }
}

/// Builds the key material from fetched key bytes and the playlist's IV
/// attribute: the key must be 16 bytes, and the IV attribute is stripped of
/// its `0x` prefix and hex-decoded into 16 bytes.
pub fn make_key_material(key_bytes: &[u8], iv_attr: &[u8]) -> (r: Result<KeyMaterial, Error>)
    ensures
        match r {
            Ok(km) => {
                &&& key_bytes@.len() == 16
                &&& km.key@ == key_bytes@
                &&& iv_of_attr(iv_attr@) == Some(km.iv@)
                &&& key_material_wf(km)
            },
            Err(e) => {
                &&& e == Error::ParsePlaylist
                &&& (key_bytes@.len() != 16 || iv_of_attr(iv_attr@) is None)
            },
        },
{
    if key_bytes.len() != 16 {
        return Err(Error::ParsePlaylist);
    }
    if iv_attr.len() != 34 || iv_attr[0] != 0x30 || (iv_attr[1] != 0x78 && iv_attr[1] != 0x58) {
        return Err(Error::ParsePlaylist);
    }
    let digits = slice_subrange(iv_attr, 2, 34);
    assert(digits@ =~= iv_attr@.skip(2));
    match hex_decode(digits) {
        Some(iv) => {
            assert(iv@.len() == 16);
            Ok(KeyMaterial { key: slice_to_vec(key_bytes), iv })
        },
        None => Err(Error::ParsePlaylist),
    }
}

/// The all-zero key material used when no segment carries a key: the stream
/// is treated as already plain.
pub fn zero_key_material() -> (r: KeyMaterial)
    ensures
        key_material_wf(r),
        forall|i: int| 0 <= i < 16 ==> r.key@[i] == 0u8 && r.iv@[i] == 0u8,
{
    let key: Vec<u8> = vec![0u8; 16];
    let iv: Vec<u8> = vec![0u8; 16];
    KeyMaterial { key, iv }
}

/// Removes the key item at `i`, so that the rewritten playlist no longer
/// references a key its local reader could not resolve.
pub fn strip_key(p: &mut MediaPlaylist, i: usize)
    requires
        i < old(p).items@.len(),
        old(p).items@[i as int] is Key,
    ensures
        final(p).items@ == old(p).items@.remove(i as int),
{
    p.items.remove(i);
}

proof fn lemma_first_key_char(items: Seq<MediaItem>, k: int, i: int)
    requires
        0 <= k <= i < items.len(),
        items[i] is Key,
        forall|j: int| k <= j < i ==> !(#[trigger] items[j] is Key),
    ensures
        first_key_from(items, k) == Some(i),
    decreases i - k,
{
    if k < i {
        lemma_first_key_char(items, k + 1, i);
    }
}

/// With exactly one key tag in the playlist, the resolver finds that tag,
/// and after its removal no item of the playlist carries a key reference.
pub proof fn lemma_single_key_resolution(items: Seq<MediaItem>, i: int)
    requires
        0 <= i < items.len(),
        items[i] is Key,
        forall|j: int| 0 <= j < items.len() && j != i ==> !(#[trigger] items[j] is Key),
    ensures
        first_key_from(items, 0) == Some(i),
        forall|j: int| 0 <= j < items.remove(i).len() ==> !(#[trigger] items.remove(i)[j]
            is Key),
{
    lemma_first_key_char(items, 0, i);
    assert forall|j: int| 0 <= j < items.remove(i).len() implies !(#[trigger] items.remove(i)[j]
        is Key) by {
        if j < i {
            assert(items.remove(i)[j] == items[j]);
        } else {
            assert(items.remove(i)[j] == items[j + 1]);
        }
    }
}

/// The index of the first variant stream at or after `i`.
pub open spec fn first_stream_from(items: Seq<MasterItem>, i: int) -> Option<int>
    decreases items.len() - i,
    when 0 <= i
{
    if i >= items.len() {
        None
    } else if items[i] is Stream {
        Some(i)
    } else {
        first_stream_from(items, i + 1)
    }
}

/// The index of the first alternative rendition at or after `i`.
pub open spec fn first_media_from(items: Seq<MasterItem>, i: int) -> Option<int>
    decreases items.len() - i,
    when 0 <= i
{
    if i >= items.len() {
        None
    } else if items[i] is Media {
        Some(i)
    } else {
        first_media_from(items, i + 1)
    }
}

/// The URI line of the variant stream at `i`.
pub open spec fn stream_uri_at(items: Seq<MasterItem>, i: int) -> Seq<u8> {
    match items[i] {
        MasterItem::Stream(a, u) => u@,
        _ => seq![],
    }
}

/// The attribute pieces of the alternative rendition at `i`.
pub open spec fn media_attrs_at(items: Seq<MasterItem>, i: int) -> Seq<Seq<u8>> {
    match items[i] {
        MasterItem::Media(a) => views_of(a@),
        _ => seq![],
    }
}

/// Selects the first variant stream (video) and the first alternative
/// rendition (audio) of a master playlist, returning their URIs. A master
/// without both, or whose rendition has no URI attribute, is refused.
pub fn select_tracks(m: &MasterPlaylist) -> (r: Result<(Vec<u8>, Vec<u8>), Error>)
    ensures
        match r {
            Ok(pair) => {
                &&& (first_stream_from(m.items@, 0) matches Some(si) && pair.0@ == stream_uri_at(
                    m.items@,
                    si,
                ))
                &&& (first_media_from(m.items@, 0) matches Some(mi) && (attr_lookup(
                    media_attrs_at(m.items@, mi),
                    attr_uri(),
                ) matches Some(u) && pair.1@ == unquote(u)))
            },
            Err(e) => {
                &&& e == Error::ParsePlaylist
                &&& (first_stream_from(m.items@, 0) is None || first_media_from(m.items@, 0)
                    is None || (first_media_from(m.items@, 0) matches Some(mi) && attr_lookup(
                    media_attrs_at(m.items@, mi),
                    attr_uri(),
                ) is None))
            },
        },
{
    let mut si: usize = 0;
    let video: Vec<u8>;
    loop
        invariant
            0 <= si <= m.items@.len(),
            first_stream_from(m.items@, 0) == first_stream_from(m.items@, si as int),
        ensures
            first_stream_from(m.items@, 0) matches Some(x) && x == si < m.items@.len()
                && video@ == stream_uri_at(m.items@, si as int),
        decreases m.items@.len() - si,
    {
        if si >= m.items.len() {
            return Err(Error::ParsePlaylist);
        }
        match &m.items[si] {
            MasterItem::Stream(_a, u) => {
                video = slice_to_vec(u.as_slice());
                break;
            },
            _ => {
                si = si + 1;
            },
        }
    }
    let mut mi: usize = 0;
    loop
        invariant
            0 <= mi <= m.items@.len(),
            first_media_from(m.items@, 0) == first_media_from(m.items@, mi as int),
            first_stream_from(m.items@, 0) matches Some(x) && x == si < m.items@.len(),
            video@ == stream_uri_at(m.items@, si as int),
        decreases m.items@.len() - mi,
    {
        if mi >= m.items.len() {
            return Err(Error::ParsePlaylist);
        }
        match &m.items[mi] {
            MasterItem::Media(a) => {
                assert(media_attrs_at(m.items@, mi as int) == views_of(a@));
                match attr_get(a, "URI".as_bytes()) {
                    Some(u) => {
                        let audio = unquote_bytes(u.as_slice());
                        return Ok((video, audio));
                    },
                    None => {
                        return Err(Error::ParsePlaylist);
                    },
                }
            },
            _ => {
                mi = mi + 1;
            },
        }
    }
}

/// An attribute piece `name=value` with the value in quotation marks.
pub open spec fn quoted_attr(name: Seq<u8>, v: Seq<u8>) -> Seq<u8> {
    name + seq![0x3Du8] + seq![0x22u8] + v + seq![0x22u8]
}

/// The attribute pieces with the first piece named `name` replaced by
/// `piece`, or with `piece` appended when no piece has that name.
pub open spec fn set_attr(attrs: Seq<Seq<u8>>, name: Seq<u8>, piece: Seq<u8>) -> Seq<Seq<u8>> {
    match find_attr_from(attrs, name, 0) {
        Some(i) => attrs.update(i, piece),
        None => attrs.push(piece),
    }
}

/// Sets the attribute named `name` to `value`, in quotation marks.
pub fn attr_set(attrs: &mut Vec<Vec<u8>>, name: &[u8], value: &[u8])
    ensures
        views_of(final(attrs)@) == set_attr(
            views_of(old(attrs)@),
            name@,
            quoted_attr(name@, value@),
        ),
{
    let mut piece: Vec<u8> = slice_to_vec(name);
    piece.push(0x3D);
    piece.push(0x22);
    push_all(&mut piece, value);
    piece.push(0x22);
    assert(piece@ =~= quoted_attr(name@, value@));
    match attr_find(attrs, name) {
        Some(i) => {
            attrs[i] = piece;
            assert(views_of(attrs@) =~= views_of(old(attrs)@).update(
                i as int,
                quoted_attr(name@, value@),
            ));
        },
        None => {
            attrs.push(piece);
            assert(views_of(attrs@) =~= views_of(old(attrs)@).push(quoted_attr(name@, value@)));
        },
    }
}

/// Copies a list of attribute pieces.
fn copy_pieces(a: &Vec<Vec<u8>>) -> (r: Vec<Vec<u8>>)
    ensures
        views_of(r@) == views_of(a@),
{
    let mut r: Vec<Vec<u8>> = Vec::new();
    let mut i: usize = 0;
    while i < a.len()
        invariant
            0 <= i <= a@.len(),
            r@.len() == i,
            forall|j: int| 0 <= j < i ==> #[trigger] r@[j]@ == a@[j]@,
        decreases a@.len() - i,
    {
        r.push(slice_to_vec(a[i].as_slice()));
        i = i + 1;
    }
    assert(views_of(r@) =~= views_of(a@));
    r
}

/// Whether the segment or map URI of this item yields a local file name.
pub open spec fn media_item_rewritable(it: MediaItem, ext: Seq<u8>) -> bool {
    match it {
        MediaItem::SegmentUri(u) => local_name(u@, ext) is Some,
        MediaItem::InitMap(a) => attr_lookup(views_of(a@), attr_uri()) matches Some(raw)
            && local_name(unquote(raw), ext) is Some,
        _ => true,
    }
}

/// How the rewriter maps one media item: a segment URI becomes its local
/// file name, an initialization map points its URI attribute at the local
/// name, and everything else is kept as it was.
pub open spec fn media_item_rewritten(it: MediaItem, ext: Seq<u8>, new: MediaItem) -> bool {
    match it {
        MediaItem::SegmentUri(u) => local_name(u@, ext) matches Some(n) && (new
            matches MediaItem::SegmentUri(v) && v@ == n),
        MediaItem::InitMap(a) => attr_lookup(views_of(a@), attr_uri()) matches Some(raw)
            && (local_name(unquote(raw), ext) matches Some(n) && (new matches MediaItem::InitMap(
            b,
        ) && views_of(b@) == set_attr(views_of(a@), attr_uri(), quoted_attr(attr_uri(), n)))),
        MediaItem::Key(a) => new matches MediaItem::Key(b) && views_of(b@) == views_of(a@),
        MediaItem::Line(l) => new matches MediaItem::Line(m) && m@ == l@,
    }
}

/// Replaces every segment URI (and map URI) of the playlist with the local
/// file name it maps to. The playlist is unchanged when any URI yields no
/// local name.
pub fn rewrite_media(p: &mut MediaPlaylist, extension: &[u8]) -> (r: Result<(), Error>)
    ensures
        match r {
            Ok(()) => {
                &&& final(p).items@.len() == old(p).items@.len()
                &&& forall|i: int| 0 <= i < old(p).items@.len() ==> media_item_rewritten(
                    old(p).items@[i],
                    extension@,
                    #[trigger] final(p).items@[i],
                )
            },
            Err(e) => {
                &&& e == Error::ParsePlaylist
                &&& *final(p) == *old(p)
                &&& exists|i: int| 0 <= i < old(p).items@.len() && !media_item_rewritable(
                    #[trigger] old(p).items@[i],
                    extension@,
                )
            },
        },
{
    let mut new_items: Vec<MediaItem> = Vec::new();
    let mut i: usize = 0;
    while i < p.items.len()
        invariant
            0 <= i <= p.items@.len(),
            p == old(p),
            new_items@.len() == i,
            forall|j: int| 0 <= j < i ==> media_item_rewritten(
                old(p).items@[j],
                extension@,
                #[trigger] new_items@[j],
            ),
        decreases p.items@.len() - i,
    {
        match &p.items[i] {
            MediaItem::SegmentUri(u) => {
                match url_to_filename(u.as_slice(), extension) {
                    Some(n) => {
                        new_items.push(MediaItem::SegmentUri(n));
                    },
                    None => {
                        return Err(Error::ParsePlaylist);
                    },
                }
            },
            MediaItem::InitMap(a) => {
                match attr_get(a, "URI".as_bytes()) {
                    Some(raw) => {
                        let unq = unquote_bytes(raw.as_slice());
                        match url_to_filename(unq.as_slice(), extension) {
                            Some(n) => {
                                let mut b = copy_pieces(a);
                                attr_set(&mut b, "URI".as_bytes(), n.as_slice());
                                new_items.push(MediaItem::InitMap(b));
                            },
                            None => {
                                return Err(Error::ParsePlaylist);
                            },
                        }
                    },
                    None => {
                        return Err(Error::ParsePlaylist);
                    },
                }
            },
            MediaItem::Key(a) => {
                new_items.push(MediaItem::Key(copy_pieces(a)));
            },
            MediaItem::Line(l) => {
                new_items.push(MediaItem::Line(slice_to_vec(l.as_slice())));
            },
        }
        i = i + 1;
    }
    p.items = new_items;
    Ok(())
}

/// The local file name of the rewritten video playlist.
pub open spec fn video_name() -> Seq<u8> {
    "video.m3u8".spec_bytes()
}

/// The local file name of the rewritten audio playlist.
pub open spec fn audio_name() -> Seq<u8> {
    "audio.m3u8".spec_bytes()
}

/// The local file name of the rewritten master playlist, the handoff
/// artifact for the transcoder.
pub open spec fn master_name() -> Seq<u8> {
    "master.m3u8".spec_bytes()
}

/// Points the first variant stream at the local video playlist and the
/// first alternative rendition at the local audio playlist. The playlist is
/// unchanged when either is missing.
pub fn rewrite_master(m: &mut MasterPlaylist) -> (r: Result<(), Error>)
    ensures
        match r {
            Ok(()) => ({
                let itso = old(m).items@;
                let itsn = final(m).items@;
                &&& itsn.len() == itso.len()
                &&& (first_stream_from(itso, 0) matches Some(si) && (first_media_from(itso, 0)
                    matches Some(mi) && {
                    &&& (itso[si] matches MasterItem::Stream(a1, u1) && (itsn[si]
                        matches MasterItem::Stream(a2, u2) && views_of(a2@) == views_of(a1@)
                        && u2@ == video_name()))
                    &&& (itso[mi] matches MasterItem::Media(b1) && (itsn[mi]
                        matches MasterItem::Media(b2) && views_of(b2@) == set_attr(
                        views_of(b1@),
                        attr_uri(),
                        quoted_attr(attr_uri(), audio_name()),
                    )))
                    &&& forall|j: int|
                        0 <= j < itso.len() && j != si && j != mi ==> itsn[j] == itso[j]
                }))
            }),
            Err(e) => {
                &&& e == Error::ParsePlaylist
                &&& *final(m) == *old(m)
                &&& (first_stream_from(old(m).items@, 0) is None || first_media_from(
                    old(m).items@,
                    0,
                ) is None)
            },
        },
{
    let mut si: usize = 0;
    loop
        invariant
            0 <= si <= m.items@.len(),
            m == old(m),
            first_stream_from(m.items@, 0) == first_stream_from(m.items@, si as int),
        ensures
            m == old(m),
            first_stream_from(m.items@, 0) == Some(si as int),
            si < m.items@.len() && m.items@[si as int] is Stream,
        decreases m.items@.len() - si,
    {
        if si >= m.items.len() {
            return Err(Error::ParsePlaylist);
        }
        match &m.items[si] {
            MasterItem::Stream(_a, _u) => {
                break;
            },
            _ => {
                si = si + 1;
            },
        }
    }
    let mut mi: usize = 0;
    loop
        invariant
            0 <= mi <= m.items@.len(),
            m == old(m),
            first_stream_from(m.items@, 0) == Some(si as int),
            si < m.items@.len() && m.items@[si as int] is Stream,
            first_media_from(m.items@, 0) == first_media_from(m.items@, mi as int),
        ensures
            m == old(m),
            first_stream_from(m.items@, 0) == Some(si as int),
            si < m.items@.len() && m.items@[si as int] is Stream,
            first_media_from(m.items@, 0) == Some(mi as int),
            mi < m.items@.len() && m.items@[mi as int] is Media,
        decreases m.items@.len() - mi,
    {
        if mi >= m.items.len() {
            return Err(Error::ParsePlaylist);
        }
        match &m.items[mi] {
            MasterItem::Media(_b) => {
                break;
            },
            _ => {
                mi = mi + 1;
            },
        }
    }
    let new_stream: MasterItem = match &m.items[si] {
        MasterItem::Stream(a, _u) => MasterItem::Stream(
            copy_pieces(a),
            slice_to_vec("video.m3u8".as_bytes()),
        ),
        _ => {
            return Err(Error::ParsePlaylist);
        },
    };
    let new_media: MasterItem = match &m.items[mi] {
        MasterItem::Media(b) => {
            let mut b2 = copy_pieces(b);
            attr_set(&mut b2, "URI".as_bytes(), "audio.m3u8".as_bytes());
            MasterItem::Media(b2)
        },
        _ => {
            return Err(Error::ParsePlaylist);
        },
    };
    m.items[si] = new_stream;
    m.items[mi] = new_media;
    Ok(())
}

/// The attribute pieces joined back with commas.
pub open spec fn join_comma(ps: Seq<Seq<u8>>) -> Seq<u8>
    decreases ps.len(),
{
    if ps.len() == 0 {
        seq![]
    } else if ps.len() == 1 {
        ps[0]
    } else {
        ps[0] + seq![0x2Cu8] + join_comma(ps.skip(1))
    }
}

/// Appends the attribute pieces, comma-separated, to `out`.
fn push_joined(out: &mut Vec<u8>, ps: &Vec<Vec<u8>>)
    ensures
        final(out)@ == old(out)@ + join_comma(views_of(ps@)),
{
    let ghost pv = views_of(ps@);
    assert(pv.skip(0) =~= pv);
    let mut i: usize = 0;
    while i < ps.len()
        invariant
            0 <= i <= ps@.len(),
            pv == views_of(ps@),
            old(out)@ + join_comma(pv) == out@ + join_comma(pv.skip(i as int)),
        decreases ps@.len() - i,
    {
        let ghost pre = out@;
        push_all(out, ps[i].as_slice());
        proof {
            assert(pv.skip(i as int)[0] == pv[i as int]);
            assert(pv.skip(i as int).skip(1) =~= pv.skip(i + 1));
        }
        if i + 1 < ps.len() {
            out.push(0x2C);
            proof {
                assert(pv.skip(i as int).len() > 1);
                assert(join_comma(pv.skip(i as int)) =~= pv[i as int] + seq![0x2Cu8]
                    + join_comma(pv.skip(i + 1)));
                assert(out@ =~= pre + pv[i as int] + seq![0x2Cu8]);
            }
        } else {
            proof {
                assert(pv.skip(i as int).len() == 1);
                assert(join_comma(pv.skip(i as int)) =~= pv[i as int]);
                assert(pv.skip(i + 1).len() == 0);
            }
        }
        i = i + 1;
    }
    assert(pv.skip(pv.len() as int).len() == 0);
    assert(out@ =~= old(out)@ + join_comma(pv));
}

/// The rendered text of one media item.
pub open spec fn render_media_item(it: MediaItem) -> Seq<u8> {
    match it {
        MediaItem::Key(a) => tag_key() + join_comma(views_of(a@)),
        MediaItem::InitMap(a) => tag_map() + join_comma(views_of(a@)),
        MediaItem::SegmentUri(u) => u@,
        MediaItem::Line(l) => l@,
    }
}

/// The rendered text of the media items from `i` on, one line feed after
/// each.
pub open spec fn render_media_from(items: Seq<MediaItem>, i: int) -> Seq<u8>
    decreases items.len() - i,
    when 0 <= i
{
    if i >= items.len() {
        seq![]
    } else {
        render_media_item(items[i]) + seq![0x0Au8] + render_media_from(items, i + 1)
    }
}

/// The rendered text of a media playlist.
pub open spec fn render_media(items: Seq<MediaItem>) -> Seq<u8> {
    render_media_from(items, 0)
}

/// Writes a media playlist back to text.
pub fn render_media_playlist(p: &MediaPlaylist) -> (r: Vec<u8>)
    ensures
        r@ == render_media(p.items@),
{
    let mut out: Vec<u8> = Vec::new();
    let mut i: usize = 0;
    while i < p.items.len()
        invariant
            0 <= i <= p.items@.len(),
            render_media(p.items@) == out@ + render_media_from(p.items@, i as int),
        decreases p.items@.len() - i,
    {
        let ghost pre = out@;
        match &p.items[i] {
            MediaItem::Key(a) => {
                push_all(&mut out, "#EXT-X-KEY:".as_bytes());
                push_joined(&mut out, a);
            },
            MediaItem::InitMap(a) => {
                push_all(&mut out, "#EXT-X-MAP:".as_bytes());
                push_joined(&mut out, a);
            },
            MediaItem::SegmentUri(u) => {
                push_all(&mut out, u.as_slice());
            },
            MediaItem::Line(l) => {
                push_all(&mut out, l.as_slice());
            },
        }
        out.push(0x0A);
        proof {
            assert(out@ =~= pre + render_media_item(p.items@[i as int]) + seq![0x0Au8]);
            assert(render_media(p.items@) == out@ + render_media_from(p.items@, i + 1)) by {
                assert(pre + render_media_item(p.items@[i as int]) + seq![0x0Au8]
                    + render_media_from(p.items@, i + 1) =~= pre + (render_media_item(
                    p.items@[i as int],
                ) + seq![0x0Au8] + render_media_from(p.items@, i + 1)));
            }
        }
        i = i + 1;
    }
    out
}

/// The rendered text of one master item. A variant stream renders as its
/// tag line followed by its URI line.
pub open spec fn render_master_item(it: MasterItem) -> Seq<u8> {
    match it {
        MasterItem::Media(a) => tag_media() + join_comma(views_of(a@)),
        MasterItem::Stream(a, u) => tag_stream() + join_comma(views_of(a@)) + seq![0x0Au8] + u@,
        MasterItem::Line(l) => l@,
    }
}

/// The rendered text of the master items from `i` on.
pub open spec fn render_master_from(items: Seq<MasterItem>, i: int) -> Seq<u8>
    decreases items.len() - i,
    when 0 <= i
{
    if i >= items.len() {
        seq![]
    } else {
        render_master_item(items[i]) + seq![0x0Au8] + render_master_from(items, i + 1)
    }
}

/// The rendered text of a master playlist.
pub open spec fn render_master(items: Seq<MasterItem>) -> Seq<u8> {
    render_master_from(items, 0)
}

/// Writes a master playlist back to text.
pub fn render_master_playlist(m: &MasterPlaylist) -> (r: Vec<u8>)
    ensures
        r@ == render_master(m.items@),
{
    let mut out: Vec<u8> = Vec::new();
    let mut i: usize = 0;
    while i < m.items.len()
        invariant
            0 <= i <= m.items@.len(),
            render_master(m.items@) == out@ + render_master_from(m.items@, i as int),
        decreases m.items@.len() - i,
    {
        let ghost pre = out@;
        match &m.items[i] {
            MasterItem::Media(a) => {
                push_all(&mut out, "#EXT-X-MEDIA:".as_bytes());
                push_joined(&mut out, a);
            },
            MasterItem::Stream(a, u) => {
                push_all(&mut out, "#EXT-X-STREAM-INF:".as_bytes());
                push_joined(&mut out, a);
                out.push(0x0A);
                push_all(&mut out, u.as_slice());
            },
            MasterItem::Line(l) => {
                push_all(&mut out, l.as_slice());
            },
        }
        out.push(0x0A);
        proof {
            assert(out@ =~= pre + render_master_item(m.items@[i as int]) + seq![0x0Au8]);
            assert(render_master(m.items@) == out@ + render_master_from(m.items@, i + 1)) by {
                assert(pre + render_master_item(m.items@[i as int]) + seq![0x0Au8]
                    + render_master_from(m.items@, i + 1) =~= pre + (render_master_item(
                    m.items@[i as int],
                ) + seq![0x0Au8] + render_master_from(m.items@, i + 1)));
            }
        }
        i = i + 1;
    }
    out
}

/// One unit of work for the segment fetcher: the remote URL, the local file
/// name it lands under, and whether it is an initialization map (fetched
/// plain) rather than a media segment (fetched and decrypted).
pub struct FetchItem {
    pub url: Vec<u8>,
    pub name: Vec<u8>,
    pub is_map: bool,
}

/// How the fetch plan from `k` on lists, in order, the map and segment
/// items of the playlist from `i` on.
pub open spec fn plan_for(
    items: Seq<MediaItem>,
    i: int,
    plan: Seq<FetchItem>,
    k: int,
    ext: Seq<u8>,
) -> bool
    decreases items.len() - i,
    when 0 <= i
{
    if i >= items.len() {
        k == plan.len()
    } else {
        match items[i] {
            MediaItem::SegmentUri(u) => {
                &&& 0 <= k < plan.len()
                &&& plan[k].url@ == u@
                &&& !plan[k].is_map
                &&& local_name(u@, ext) == Some(plan[k].name@)
                &&& plan_for(items, i + 1, plan, k + 1, ext)
            },
            MediaItem::InitMap(a) => {
                &&& 0 <= k < plan.len()
                &&& (attr_lookup(views_of(a@), attr_uri()) matches Some(raw) && plan[k].url@
                    == unquote(raw) && local_name(unquote(raw), ext) == Some(plan[k].name@))
                &&& plan[k].is_map
                &&& plan_for(items, i + 1, plan, k + 1, ext)
            },
            _ => plan_for(items, i + 1, plan, k, ext),
        }
    }
}

fn plan_from(items: &Vec<MediaItem>, i: usize, extension: &[u8], out: &mut Vec<FetchItem>) -> (r:
    Result<(), Error>)
    requires
        i <= items@.len(),
    ensures
        match r {
            Ok(()) => {
                &&& final(out)@.len() >= old(out)@.len()
                &&& final(out)@.subrange(0, old(out)@.len() as int) == old(out)@
                &&& plan_for(items@, i as int, final(out)@, old(out)@.len() as int, extension@)
            },
            Err(e) => {
                &&& e == Error::ParsePlaylist
                &&& exists|j: int| i <= j < items@.len() && !media_item_rewritable(
                    #[trigger] items@[j],
                    extension@,
                )
            },
        },
    decreases items@.len() - i,
{
    if i >= items.len() {
        assert(out@.subrange(0, old(out)@.len() as int) =~= old(out)@);
        return Ok(());
    }
    match &items[i] {
        MediaItem::SegmentUri(u) => {
            match url_to_filename(u.as_slice(), extension) {
                Some(n) => {
                    out.push(
                        FetchItem { url: slice_to_vec(u.as_slice()), name: n, is_map: false },
                    );
                },
                None => {
                    return Err(Error::ParsePlaylist);
                },
            }
        },
        MediaItem::InitMap(a) => {
            match attr_get(a, "URI".as_bytes()) {
                Some(raw) => {
                    let unq = unquote_bytes(raw.as_slice());
                    match url_to_filename(unq.as_slice(), extension) {
                        Some(n) => {
                            out.push(FetchItem { url: unq, name: n, is_map: true });
                        },
                        None => {
                            return Err(Error::ParsePlaylist);
                        },
                    }
                },
                None => {
                    return Err(Error::ParsePlaylist);
                },
            }
        },
        _ => {},
    }
    let ghost mid = out@;
    let r = plan_from(items, i + 1, extension, out);
    match r {
        Ok(()) => {
            proof {
                if mid.len() > old(out)@.len() {
                    assert(out@[mid.len() - 1] == mid[mid.len() - 1]);
                }
                assert(out@.subrange(0, old(out)@.len() as int) =~= old(out)@);
            }
            Ok(())
        },
        Err(e) => Err(e),
    }
}

/// Lists, in playlist order, every initialization map and media segment to
/// fetch, with the local file name each lands under. Fails when any URI
/// yields no local name.
pub fn fetch_plan(p: &MediaPlaylist, extension: &[u8]) -> (r: Result<Vec<FetchItem>, Error>)
    ensures
        match r {
            Ok(plan) => plan_for(p.items@, 0, plan@, 0, extension@),
            Err(e) => {
                &&& e == Error::ParsePlaylist
                &&& exists|j: int| 0 <= j < p.items@.len() && !media_item_rewritable(
                    #[trigger] p.items@[j],
                    extension@,
                )
            },
        },
{
    let mut out: Vec<FetchItem> = Vec::new();
    match plan_from(&p.items, 0, extension, &mut out) {
        Ok(()) => Ok(out),
        Err(e) => Err(e),
    }
}

} // verus!
