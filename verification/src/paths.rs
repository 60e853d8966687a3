//! Mapping a request path to a file under the root directory.

use vstd::prelude::*;
use vstd::utf8::{encode_utf8, valid_utf8, decode_utf8};
use crate::text::chars_of;
use crate::response::MimeType;

verus! {

broadcast use vstd::string::group_string_axioms;

/// The index of the first `c` in `s`, or the length of `s` when there is none.
pub open spec fn index_of_char(s: Seq<char>, c: char) -> int
    decreases s.len(),
{
    if s.len() == 0 {
        0
    } else if s[0] == c {
        0
    } else {
        1 + index_of_char(s.drop_first(), c)
    }
}

proof fn lemma_index_of_char(s: Seq<char>, c: char, k: int)
    requires
        0 <= k <= s.len(),
        forall|j: int| 0 <= j < k ==> s[j] != c,
        k == s.len() || s[k] == c,
    ensures
        index_of_char(s, c) == k,
    decreases k,
{
    if k > 0 {
        let d = s.drop_first();
        assert forall|j: int| 0 <= j < k - 1 implies d[j] != c by {
            assert(d[j] == s[j + 1]);
        }
        if k < s.len() {
            assert(d[k - 1] == s[k]);
        }
        lemma_index_of_char(d, c, k - 1);
    }
}

/// Finds the first `c` in `v`.
fn find_char(v: &Vec<char>, c: char) -> (k: usize)
    ensures
        k == index_of_char(v@, c),
        k <= v@.len(),
{
    let mut i: usize = 0;
    while i < v.len() && v[i] != c
        invariant
            i <= v@.len(),
            forall|j: int| 0 <= j < i ==> v@[j] != c,
        decreases v@.len() - i,
    {
        i += 1;
    }
    proof {
        lemma_index_of_char(v@, c, i as int);
    }
    i
}

/// The value of an ASCII hexadecimal digit.
pub open spec fn hex_value(b: u8) -> Option<u8> {
    if 48 <= b <= 57 {
        Some((b - 48) as u8)
    } else if 97 <= b <= 102 {
        Some((b - 87) as u8)
    } else if 65 <= b <= 70 {
        Some((b - 55) as u8)
    } else {
        None
    }
}

/// Percent-decoding: every `%` followed by two hexadecimal digits becomes
/// the byte they spell; every other byte is kept.
pub open spec fn percent_decoded(s: Seq<u8>) -> Seq<u8>
    decreases s.len(),
{
    if s.len() == 0 {
        seq![]
    } else if s[0] == 37 && s.len() >= 3 && hex_value(s[1]) is Some && hex_value(s[2]) is Some {
        seq![(hex_value(s[1]).unwrap() * 16 + hex_value(s[2]).unwrap()) as u8] + percent_decoded(
            s.skip(3),
        )
    } else {
        seq![s[0]] + percent_decoded(s.skip(1))
    }
}

/// `percent_encoding::percent_decode`, collected: the crate documents that
/// any `%` followed by two hexadecimal digits is decoded, and its source
/// keeps every other byte as it is.
#[verifier::external_body]
fn percent_decode(input: &[u8]) -> (decoded: Vec<u8>)
    ensures
        decoded@ == percent_decoded(input@),
{
    percent_encoding::percent_decode(input).collect()
}

/// `String::from_utf8`: the bytes as a string exactly when they are valid
/// UTF-8.
#[verifier::external_body]
fn utf8_to_string(bytes: Vec<u8>) -> (text: Option<String>)
    ensures
        text is Some <==> valid_utf8(bytes@),
        text matches Some(t) ==> t@ == decode_utf8(bytes@),
{
    String::from_utf8(bytes).ok()
}

/// Pushing `rel` onto the path `base`: an absolute `rel` replaces `base`;
/// otherwise a `/` separates them unless `base` is empty or ends in one.
pub open spec fn pushed_path(base: Seq<char>, rel: Seq<char>) -> Seq<char> {
    if rel.len() > 0 && rel[0] == '/' {
        rel
    } else if base.len() > 0 && base.last() != '/' {
        base + seq!['/'] + rel
    } else {
        base + rel
    }
}

/// `base` with `rel` pushed onto it, as a path buffer does.
pub fn push_path(base: &str, rel: &str) -> (out: String)
    ensures
        out@ == pushed_path(base@, rel@),
{
    if !rel.is_empty() && rel.get_char(0) == '/' {
        return String::from_str(rel);
    }
    let mut out = String::from_str(base);
    if !base.is_empty() && base.get_char(base.unicode_len() - 1) != '/' {
        out.append("/");
        proof {
            reveal_strlit("/");
        }
    }
    out.append(rel);
    out
}

/// The path of the file that a request path names under `root`: the part
/// before any `?`, percent-decoded, read as UTF-8, with its leading `/`
/// pushed onto `root`. `None` when the path does not start with `/` or does
/// not decode to UTF-8.
pub open spec fn request_local_path(path: Seq<char>, root: Seq<char>) -> Option<Seq<char>> {
    if path.len() == 0 || path[0] != '/' {
        None
    } else {
        let decoded = percent_decoded(encode_utf8(path.take(index_of_char(path, '?'))));
        if !valid_utf8(decoded) {
            None
        } else {
            let text = decode_utf8(decoded);
            if text.len() > 0 && text[0] == '/' {
                Some(pushed_path(root, text.skip(1)))
            } else {
                None
            }
        }
    }
}

/// Maps a request path to the local path under `root_dir`.
pub fn local_path_for_request(uri_path: &str, root_dir: &str) -> (local: Option<String>)
    ensures
        match local {
            Some(p) => request_local_path(uri_path@, root_dir@) == Some(p@),
            None => request_local_path(uri_path@, root_dir@) == None::<Seq<char>>,
        },
{
    if uri_path.is_empty() || uri_path.get_char(0) != '/' {
        return None;
    }
    let chars = chars_of(uri_path);
    let end = find_char(&chars, '?');
    let head = uri_path.substring_char(0, end);
    assert(head@ == uri_path@.take(end as int));
    let decoded = percent_decode(head.as_bytes());
    let text = match utf8_to_string(decoded) {
        None => {
            return None;
        },
        Some(t) => t,
    };
    let text = text.as_str();
    if text.is_empty() || text.get_char(0) != '/' {
        return None;
    }
    let rest = text.substring_char(1, text.unicode_len());
    assert(rest@ == text@.skip(1));
    Some(push_path(root_dir, rest))
}


/// The index just after the last `/` of `s`, or 0 when there is none.
pub open spec fn segment_start(s: Seq<char>) -> int
    decreases s.len(),
{
    if s.len() == 0 {
        0
    } else if s.last() == '/' {
        s.len() as int
    } else {
        segment_start(s.drop_last())
    }
}

/// Where the last component starts lies within the path, and before its end
/// when the path does not end in `/`.
pub proof fn lemma_segment_start_bound(s: Seq<char>)
    ensures
        0 <= segment_start(s) <= s.len(),
        s.len() > 0 && s.last() != '/' ==> segment_start(s) < s.len(),
    decreases s.len(),
{
    if s.len() > 0 {
        lemma_segment_start_bound(s.drop_last());
    }
}

/// The last component of a path, as `Path::file_name` gives it: trailing
/// `/`s and `.` components are passed over; a path that ends in `..` or has
/// no component has none.
pub open spec fn file_name(path: Seq<char>) -> Option<Seq<char>>
    decreases path.len(),
{
    if path.len() == 0 {
        None
    } else if path.last() == '/' {
        file_name(path.drop_last())
    } else {
        let start = segment_start(path);
        proof {
            lemma_segment_start_bound(path);
        }
        let seg = path.subrange(start, path.len() as int);
        if seg == seq!['.'] {
            file_name(path.subrange(0, start))
        } else if seg == seq!['.', '.'] {
            None
        } else {
            Some(seg)
        }
    }
}

/// The index of the last `.` of `s`, or -1 when there is none.
pub open spec fn last_dot(s: Seq<char>) -> int
    decreases s.len(),
{
    if s.len() == 0 {
        -1
    } else if s.last() == '.' {
        s.len() - 1
    } else {
        last_dot(s.drop_last())
    }
}

/// The extension of a file name, as `Path::extension` gives it: what follows
/// the last `.`, unless there is no `.` or the only `.` starts the name.
pub open spec fn name_extension(name: Seq<char>) -> Option<Seq<char>> {
    let k = last_dot(name);
    if k <= 0 {
        None
    } else {
        Some(name.subrange(k + 1, name.len() as int))
    }
}

/// The extension of the file a path names.
pub open spec fn path_extension(path: Seq<char>) -> Option<Seq<char>> {
    match file_name(path) {
        Some(name) => name_extension(name),
        None => None,
    }
}

/// The media type a file is served with, by its extension.
pub open spec fn mime_for_extension(ext: Option<Seq<char>>) -> MimeType {
    match ext {
        Some(e) => if e == seq!['h', 't', 'm', 'l'] {
            MimeType::TextHtml
        } else if e == seq!['c', 's', 's'] {
            MimeType::TextCss
        } else if e == seq!['j', 's'] {
            MimeType::TextJavascript
        } else if e == seq!['j', 'p', 'g'] {
            MimeType::ImageJpeg
        } else if e == seq!['m', 'd'] {
            MimeType::TextMarkdown
        } else if e == seq!['p', 'n', 'g'] {
            MimeType::ImagePng
        } else if e == seq!['s', 'v', 'g'] {
            MimeType::ImageSvg
        } else if e == seq!['w', 'a', 's', 'm'] {
            MimeType::ApplicationWasm
        } else {
            MimeType::TextPlain
        },
        None => MimeType::TextPlain,
    }
}

/// Where the component that ends at `end` starts.
fn segment_begin(v: &Vec<char>, end: usize) -> (start: usize)
    requires
        end <= v@.len(),
    ensures
        start == segment_start(v@.take(end as int)),
        start <= end,
{
    let mut start = end;
    while start > 0 && v[start - 1] != '/'
        invariant
            start <= end <= v@.len(),
            segment_start(v@.take(end as int)) == segment_start(v@.take(start as int)),
        decreases start,
    {
        assert(v@.take(start as int).drop_last() =~= v@.take(start - 1));
        start -= 1;
    }
    proof {
        if start > 0 {
            assert(v@.take(start as int).last() == v@[start - 1]);
        }
    }
    start
}

/// The bounds of the file name within `v`.
fn file_name_bounds(v: &Vec<char>) -> (bounds: Option<(usize, usize)>)
    ensures
        match bounds {
            Some((a, b)) => a <= b <= v@.len() && file_name(v@) == Some(v@.subrange(a as int, b as int)),
            None => file_name(v@) == None::<Seq<char>>,
        },
{
    let mut end = v.len();
    assert(v@.take(end as int) =~= v@);
    loop
        invariant
            end <= v@.len(),
            file_name(v@) == file_name(v@.take(end as int)),
        decreases end,
    {
        let ghost t = v@.take(end as int);
        if end == 0 {
            return None;
        }
        assert(t.last() == v@[end - 1]);
        if v[end - 1] == '/' {
            assert(t.drop_last() =~= v@.take(end - 1));
            end -= 1;
        } else {
            let start = segment_begin(v, end);
            proof {
                lemma_segment_start_bound(t);
            }
            let ghost seg = t.subrange(start as int, end as int);
            assert(seg =~= v@.subrange(start as int, end as int));
            if end - start == 1 && v[start] == '.' {
                assert(seg =~= seq!['.']);
                assert(t.subrange(0, start as int) =~= v@.take(start as int));
                end = start;
            } else if end - start == 2 && v[start] == '.' && v[start + 1] == '.' {
                assert(seg =~= seq!['.', '.']);
                return None;
            } else {
                assert(seg != seq!['.']) by {
                    if seg == seq!['.'] {
                        assert(seg.len() == 1 && seg[0] == '.');
                    }
                }
                assert(seg != seq!['.', '.']) by {
                    if seg == seq!['.', '.'] {
                        assert(seg.len() == 2 && seg[0] == '.' && seg[1] == '.');
                    }
                }
                return Some((start, end));
            }
        }
    }
}

/// The bounds of the extension within the name `v[start..end]`.
fn extension_bounds(v: &Vec<char>, start: usize, end: usize) -> (ext: Option<usize>)
    requires
        start <= end <= v@.len(),
    ensures
        match ext {
            Some(k) => start <= k <= end && name_extension(v@.subrange(start as int, end as int))
                == Some(v@.subrange(k as int, end as int)),
            None => name_extension(v@.subrange(start as int, end as int)) == None::<Seq<char>>,
        },
{
    let ghost name = v@.subrange(start as int, end as int);
    let mut k = end;
    assert(v@.subrange(start as int, k as int) =~= name);
    while k > start && v[k - 1] != '.'
        invariant
            start <= k <= end <= v@.len(),
            name == v@.subrange(start as int, end as int),
            last_dot(name) == last_dot(v@.subrange(start as int, k as int)),
        decreases k,
    {
        assert(v@.subrange(start as int, k as int).drop_last() =~= v@.subrange(start as int, k - 1));
        k -= 1;
    }
    if k == start {
        assert(v@.subrange(start as int, k as int) =~= seq![]);
        return None;
    }
    assert(v@.subrange(start as int, k as int).last() == v@[k - 1]);
    if k - 1 == start {
        return None;
    }
    assert(name.subrange(k - start, name.len() as int) =~= v@.subrange(k as int, end as int));
    Some(k)
}

/// Whether `v[from..to]` spells `lit`.
fn chars_equal(v: &Vec<char>, from: usize, to: usize, lit: &Vec<char>) -> (same: bool)
    requires
        from <= to <= v@.len(),
    ensures
        same == (v@.subrange(from as int, to as int) == lit@),
{
    if to - from != lit.len() {
        return false;
    }
    let mut i: usize = 0;
    while i < lit.len()
        invariant
            from <= to <= v@.len(),
            to - from == lit@.len(),
            i <= lit@.len(),
            forall|j: int| 0 <= j < i ==> v@[from + j] == lit@[j],
        decreases lit@.len() - i,
    {
        if v[from + i] != lit[i] {
            assert(v@.subrange(from as int, to as int)[i as int] != lit@[i as int]);
            return false;
        }
        i += 1;
    }
    assert(v@.subrange(from as int, to as int) =~= lit@);
    true
}

/// The media type of the file at `file_path`, by its extension.
pub fn file_path_mime(file_path: &str) -> (mime: MimeType)
    ensures
        mime == mime_for_extension(path_extension(file_path@)),
{
    let v = chars_of(file_path);
    let (start, end) = match file_name_bounds(&v) {
        None => {
            return MimeType::TextPlain;
        },
        Some(b) => b,
    };
    let k = match extension_bounds(&v, start, end) {
        None => {
            return MimeType::TextPlain;
        },
        Some(k) => k,
    };
    let ghost ext = v@.subrange(k as int, end as int);
    assert(path_extension(file_path@) == Some(ext));
    if chars_equal(&v, k, end, &vec!['h', 't', 'm', 'l']) {
        MimeType::TextHtml
    } else if chars_equal(&v, k, end, &vec!['c', 's', 's']) {
        MimeType::TextCss
    } else if chars_equal(&v, k, end, &vec!['j', 's']) {
        MimeType::TextJavascript
    } else if chars_equal(&v, k, end, &vec!['j', 'p', 'g']) {
        MimeType::ImageJpeg
    } else if chars_equal(&v, k, end, &vec!['m', 'd']) {
        MimeType::TextMarkdown
    } else if chars_equal(&v, k, end, &vec!['p', 'n', 'g']) {
        MimeType::ImagePng
    } else if chars_equal(&v, k, end, &vec!['s', 'v', 'g']) {
        MimeType::ImageSvg
    } else if chars_equal(&v, k, end, &vec!['w', 'a', 's', 'm']) {
        MimeType::ApplicationWasm
    } else {
        MimeType::TextPlain
    }
}


proof fn lemma_high_bytes_not_percent(x: u8)
    by (bit_vector)
    ensures
        (0xC0u8 | x) != 37u8,
        (0xE0u8 | x) != 37u8,
        (0xF0u8 | x) != 37u8,
        (0x80u8 | x) != 37u8,
{
}

proof fn lemma_low_byte(v: u32)
    by (bit_vector)
    requires
        v <= 0x7F,
        v != 37u32,
    ensures
        ((v & 0x7F) as u8) != 37u8,
{
}

proof fn lemma_encode_no_percent(s: Seq<char>)
    requires
        forall|i: int| 0 <= i < s.len() ==> s[i] != '%',
    ensures
        forall|j: int| 0 <= j < encode_utf8(s).len() ==> encode_utf8(s)[j] != 37u8,
    decreases s.len(),
{
    broadcast use vstd::utf8::group_utf8_lib;

    if s.len() > 0 {
        let d = s.drop_first();
        assert forall|i: int| 0 <= i < d.len() implies d[i] != '%' by {
            assert(d[i] == s[i + 1]);
        }
        lemma_encode_no_percent(d);
        let c = s[0];
        let v = c as u32;
        assert(v != 37u32) by {
            if v == 37u32 {
                vstd::utf8::char_u32_cast(c, v);
                assert(('%' as u32) == 37u32);
                vstd::utf8::char_u32_cast('%', 37u32);
            }
        }
        let e = vstd::utf8::encode_scalar(v);
        if vstd::utf8::has_width_1_encoding(v) {
            lemma_low_byte(v);
        } else if vstd::utf8::has_width_2_encoding(v) {
            lemma_high_bytes_not_percent(((v >> 6) & 0x1F) as u8);
            lemma_high_bytes_not_percent((v & 0x3F) as u8);
        } else if vstd::utf8::has_width_3_encoding(v) {
            lemma_high_bytes_not_percent(((v >> 12) & 0x0F) as u8);
            lemma_high_bytes_not_percent(((v >> 6) & 0x3F) as u8);
            lemma_high_bytes_not_percent((v & 0x3F) as u8);
        } else {
            lemma_high_bytes_not_percent(((v >> 18) & 0x7) as u8);
            lemma_high_bytes_not_percent(((v >> 12) & 0x3F) as u8);
            lemma_high_bytes_not_percent(((v >> 6) & 0x3F) as u8);
            lemma_high_bytes_not_percent((v & 0x3F) as u8);
        }
        assert forall|j: int| 0 <= j < e.len() implies e[j] != 37u8 by {}
        let all = encode_utf8(s);
        assert(all == e + encode_utf8(d));
        assert forall|j: int| 0 <= j < all.len() implies all[j] != 37u8 by {
            if j < e.len() {
                assert(all[j] == e[j]);
            } else {
                assert(all[j] == encode_utf8(d)[j - e.len()]);
            }
        }
    }
}

proof fn lemma_decode_without_percent(b: Seq<u8>)
    requires
        forall|j: int| 0 <= j < b.len() ==> b[j] != 37u8,
    ensures
        percent_decoded(b) == b,
    decreases b.len(),
{
    if b.len() > 0 {
        let d = b.skip(1);
        assert forall|j: int| 0 <= j < d.len() implies d[j] != 37u8 by {
            assert(d[j] == b[j + 1]);
        }
        lemma_decode_without_percent(d);
        assert(seq![b[0]] + d =~= b);
    }
}

/// A request path without escapes or query names the file with exactly
/// those characters under the root: nothing in it is changed, letter case
/// included. The part after the leading `/` is joined to the root with one
/// `/` between them (none when the root is empty or already ends in `/`),
/// and a part that itself starts with `/` stands alone.
pub proof fn law_plain_path_kept_as_is(path: Seq<char>, root: Seq<char>)
    requires
        path.len() > 0,
        path[0] == '/',
        forall|i: int| 0 <= i < path.len() ==> path[i] != '%' && path[i] != '?',
    ensures
        request_local_path(path, root) == Some(
            if path.len() > 1 && path[1] == '/' {
                path.skip(1)
            } else if root.len() > 0 && root.last() != '/' {
                root + seq!['/'] + path.skip(1)
            } else {
                root + path.skip(1)
            },
        ),
{
    broadcast use vstd::utf8::group_utf8_lib;

    lemma_index_of_char(path, '?', path.len() as int);
    assert(path.take(path.len() as int) =~= path);
    lemma_encode_no_percent(path);
    lemma_decode_without_percent(encode_utf8(path));
    let rest = path.skip(1);
    if rest.len() > 0 {
        assert(rest[0] == path[1]);
    }
}

/// Every extension other than the eight the server knows is served as plain
/// text, and so is a file without an extension; the eight are `html`,
/// `css`, `js`, `jpg`, `md`, `png`, `svg` and `wasm`, compared exactly.
pub proof fn law_other_extensions_are_plain_text(ext: Option<Seq<char>>)
    requires
        ext matches Some(e) ==> e != seq!['h', 't', 'm', 'l'] && e != seq!['c', 's', 's'] && e
            != seq!['j', 's'] && e != seq!['j', 'p', 'g'] && e != seq!['m', 'd'] && e != seq![
            'p',
            'n',
            'g',
        ] && e != seq!['s', 'v', 'g'] && e != seq!['w', 'a', 's', 'm'],
    ensures
        mime_for_extension(ext) == MimeType::TextPlain,
{
}

/// The eight known extensions get their own media types.
pub proof fn law_known_extensions()
    ensures
        mime_for_extension(Some(seq!['h', 't', 'm', 'l'])) == MimeType::TextHtml,
        mime_for_extension(Some(seq!['c', 's', 's'])) == MimeType::TextCss,
        mime_for_extension(Some(seq!['j', 's'])) == MimeType::TextJavascript,
        mime_for_extension(Some(seq!['j', 'p', 'g'])) == MimeType::ImageJpeg,
        mime_for_extension(Some(seq!['m', 'd'])) == MimeType::TextMarkdown,
        mime_for_extension(Some(seq!['p', 'n', 'g'])) == MimeType::ImagePng,
        mime_for_extension(Some(seq!['s', 'v', 'g'])) == MimeType::ImageSvg,
        mime_for_extension(Some(seq!['w', 'a', 's', 'm'])) == MimeType::ApplicationWasm,
{
    assert(seq!['c', 's', 's'] != seq!['h', 't', 'm', 'l']);
    assert(seq!['j', 's'].len() == 2);
    assert(seq!['j', 'p', 'g'] != seq!['c', 's', 's']) by {
        assert(seq!['j', 'p', 'g'][0] != seq!['c', 's', 's'][0]);
    }
    assert(seq!['m', 'd'] != seq!['j', 's']) by {
        assert(seq!['m', 'd'][0] != seq!['j', 's'][0]);
    }
    assert(seq!['p', 'n', 'g'] != seq!['c', 's', 's']) by {
        assert(seq!['p', 'n', 'g'][0] != seq!['c', 's', 's'][0]);
    }
    assert(seq!['p', 'n', 'g'] != seq!['j', 'p', 'g']) by {
        assert(seq!['p', 'n', 'g'][0] != seq!['j', 'p', 'g'][0]);
    }
    assert(seq!['s', 'v', 'g'] != seq!['c', 's', 's']) by {
        assert(seq!['s', 'v', 'g'][0] != seq!['c', 's', 's'][0]);
    }
    assert(seq!['s', 'v', 'g'] != seq!['j', 'p', 'g']) by {
        assert(seq!['s', 'v', 'g'][0] != seq!['j', 'p', 'g'][0]);
    }
    assert(seq!['s', 'v', 'g'] != seq!['p', 'n', 'g']) by {
        assert(seq!['s', 'v', 'g'][0] != seq!['p', 'n', 'g'][0]);
    }
    assert(seq!['w', 'a', 's', 'm'] != seq!['h', 't', 'm', 'l']) by {
        assert(seq!['w', 'a', 's', 'm'][0] != seq!['h', 't', 'm', 'l'][0]);
    }
}

} // verus!
