//! Image references and how they travel in a query string.

use vstd::prelude::*;
use vstd::string::*;

use crate::text;

verus! {

/// The last index at which a character stands in a text.
pub open spec fn last_index(s: Seq<char>, c: char) -> Option<int>
    decreases s.len(),
{
    if s.len() == 0 {
        None
    } else if s.last() == c {
        Some(s.len() - 1)
    } else {
        last_index(s.drop_last(), c)
    }
}

/// Where the last path segment of an image reference begins.
pub open spec fn segment_start(image: Seq<char>) -> int {
    match last_index(image, '/') {
        Some(i) => i + 1,
        None => 0,
    }
}

/// The repository and the tag of an image reference. Only a colon in the last
/// path segment marks a tag, so the port of a registry is not mistaken for
/// one; a reference without a tag has the default one; a reference by digest
/// has none.
pub open spec fn image_parts(image: Seq<char>) -> (Seq<char>, Seq<char>) {
    let start = segment_start(image);
    let segment = image.skip(start);
    if segment.contains('@') {
        (image, seq![])
    } else {
        match last_index(segment, ':') {
            Some(colon) if colon + 1 < segment.len() => (image.take(start + colon), segment.skip(colon + 1)),
            _ => (image, "latest"@),
        }
    }
}

/// The last index is the last one: the character stands there and nowhere
/// after.
pub proof fn lemma_last_index(s: Seq<char>, c: char)
    ensures
        match last_index(s, c) {
            Some(i) => 0 <= i < s.len() && s[i] == c && forall|j: int| i < j < s.len() ==> s[j] != c,
            None => !s.contains(c),
        },
    decreases s.len(),
{
    if s.len() > 0 && s.last() != c {
        let init = s.drop_last();
        lemma_last_index(init, c);
        match last_index(init, c) {
            Some(i) => {
                assert forall|j: int| i < j < s.len() implies s[j] != c by {
                    if j < init.len() {
                        assert(init[j] == s[j]);
                    }
                }
            },
            None => {
                if s.contains(c) {
                    let j = choose|j: int| 0 <= j < s.len() && s[j] == c;
                    assert(init[j] == c);
                }
            },
        }
    }
}

/// The last index at or after `from` at which a character stands.
fn find_last(chars: &Vec<char>, from: usize, c: char) -> (out: Option<usize>)
    requires
        from <= chars@.len(),
    ensures
        match out {
            Some(i) => from <= i < chars@.len() && last_index(chars@.skip(from as int), c) == Some(i - from),
            None => last_index(chars@.skip(from as int), c) is None,
        },
{
    let mut i: usize = chars.len();
    let ghost whole = chars@.skip(from as int);
    assert(whole.take(i - from) =~= whole);
    while i > from
        invariant
            from <= i <= chars@.len(),
            whole == chars@.skip(from as int),
            last_index(whole, c) == last_index(whole.take(i - from), c),
        decreases i,
    {
        assert(whole.take(i - from).last() == chars@[i - 1]);
        assert(whole.take(i - from).drop_last() =~= whole.take(i - from - 1));
        if chars[i - 1] == c {
            return Some(i - 1);
        }
        i = i - 1;
    }
    None
}

/// Whether a character stands at or after `from`.
fn holds_char(chars: &Vec<char>, from: usize, c: char) -> (r: bool)
    requires
        from <= chars@.len(),
    ensures
        r == chars@.skip(from as int).contains(c),
{
    let out: Option<usize> = find_last(chars, from, c);
    proof {
        lemma_last_index(chars@.skip(from as int), c);
    }
    out.is_some()
}

/// Splits an image reference into repository and tag, the tag defaulting to
/// `latest`. A digest reference has no tag: the caller omits the parameter.
pub fn split_image_ref(image: &str) -> (out: (String, String))
    ensures
        (out.0@, out.1@) == image_parts(image@),
{
    let chars: Vec<char> = text::chars_of(image);
    let n: usize = chars.len();
    assert(chars@.skip(0) =~= chars@);
    let start: usize = match find_last(&chars, 0, '/') {
        Some(i) => i + 1,
        None => 0,
    };
    let ghost segment = image@.skip(start as int);
    if holds_char(&chars, start, '@') {
        return (image.to_owned(), String::new());
    }
    match find_last(&chars, start, ':') {
        Some(colon) => {
            if colon + 1 < n {
                let name: String = text::text_of(&chars, 0, colon);
                let tag: String = text::text_of(&chars, colon + 1, n);
                assert(name@ =~= image@.take(colon as int));
                assert(tag@ =~= segment.skip(colon - start + 1));
                return (name, tag);
            }
        },
        None => {},
    }
    (image.to_owned(), "latest".to_owned())
}

/// Splitting loses nothing: either the whole reference is the repository and
/// the tag is the default one or absent, or repository, colon and tag put
/// together are the reference again, and the tag holds neither a slash nor a
/// colon.
pub proof fn law_image_ref_rejoins(image: Seq<char>)
    ensures
        ({
            let (name, tag) = image_parts(image);
            ||| name == image && (tag == "latest"@ || tag == Seq::<char>::empty())
            ||| name + seq![':'] + tag == image && tag.len() > 0 && !tag.contains('/') && !tag.contains(':')
        }),
{
    let start = segment_start(image);
    let segment = image.skip(start);
    lemma_last_index(image, '/');
    lemma_last_index(segment, ':');
    if !segment.contains('@') {
        if let Some(colon) = last_index(segment, ':') {
            if colon + 1 < segment.len() {
                let (name, tag) = image_parts(image);
                assert(image[start + colon] == segment[colon]);
                assert(name + seq![':'] + tag =~= image);
                assert forall|j: int| 0 <= j < tag.len() implies tag[j] != '/' && tag[j] != ':' by {
                    assert(tag[j] == segment[colon + 1 + j]);
                    assert(tag[j] == image[start + colon + 1 + j]);
                }
            }
        }
    }
}

/// Whether a byte may stand in a query value as it is.
pub open spec fn is_plain(b: u8) -> bool {
    ||| 'a' as u8 <= b <= 'z' as u8
    ||| 'A' as u8 <= b <= 'Z' as u8
    ||| '0' as u8 <= b <= '9' as u8
    ||| b == '-' as u8
    ||| b == '_' as u8
    ||| b == '.' as u8
    ||| b == '~' as u8
    ||| b == '/' as u8
    ||| b == ':' as u8
}

/// The upper-case hexadecimal digit of a number below sixteen.
pub open spec fn upper_hex_digit(d: int) -> char {
    if d < 10 {
        (('0' as int) + d) as char
    } else {
        (('A' as int) + d - 10) as char
    }
}

/// How one byte is written in a query value.
pub open spec fn encoded_byte(b: u8) -> Seq<char> {
    if is_plain(b) {
        seq![b as char]
    } else {
        seq!['%', upper_hex_digit(b as int / 16), upper_hex_digit(b as int % 16)]
    }
}

/// How bytes are written in a query value.
pub open spec fn encoded_query(bytes: Seq<u8>) -> Seq<char>
    decreases bytes.len(),
{
    if bytes.len() == 0 {
        seq![]
    } else {
        encoded_query(bytes.drop_last()) + encoded_byte(bytes.last())
    }
}

/// The upper-case hexadecimal digit of a number below sixteen.
fn upper_hex_char(d: u8) -> (c: char)
    requires
        d < 16,
    ensures
        c == upper_hex_digit(d as int),
{
    if d < 10 {
        (('0' as u8) + d) as char
    } else {
        (('A' as u8) + (d - 10)) as char
    }
}

/// Percent-encodes a query value. What is valid and safe inside an image
/// reference stays as it is; what would break the query is escaped.
pub fn encode_query(s: &str) -> (out: String)
    ensures
        out@ == encoded_query(vstd::utf8::encode_utf8(s@)),
{
    let bytes: &[u8] = s.as_bytes();
    let mut out: String = String::new();
    let mut i: usize = 0;
    while i < bytes.len()
        invariant
            i <= bytes@.len(),
            out@ == encoded_query(bytes@.take(i as int)),
        decreases bytes@.len() - i,
    {
        let b: u8 = bytes[i];
        assert(bytes@.take(i + 1).drop_last() =~= bytes@.take(i as int));
        let ghost before = out@;
        if ('a' as u8 <= b && b <= 'z' as u8) || ('A' as u8 <= b && b <= 'Z' as u8) || ('0' as u8 <= b && b <= '9' as u8)
            || b == '-' as u8 || b == '_' as u8 || b == '.' as u8 || b == '~' as u8 || b == '/' as u8 || b
            == ':' as u8 {
            out.push(b as char);
            assert(out@ =~= before + encoded_byte(b));
        } else {
            out.push('%');
            out.push(upper_hex_char(b / 16));
            out.push(upper_hex_char(b % 16));
            assert(out@ =~= before + encoded_byte(b));
        }
        i = i + 1;
    }
    assert(bytes@.take(i as int) =~= bytes@);
    out
}

/// The value of a hexadecimal digit in upper case.
pub open spec fn hex_value(c: char) -> int {
    if '0' <= c <= '9' {
        c as int - '0' as int
    } else {
        c as int - 'A' as int + 10
    }
}

/// The bytes that a percent-encoded query value stands for.
pub open spec fn decoded_query(s: Seq<char>) -> Seq<u8>
    decreases s.len(),
{
    if s.len() == 0 {
        seq![]
    } else if s[0] == '%' && s.len() >= 3 {
        seq![(hex_value(s[1]) * 16 + hex_value(s[2])) as u8] + decoded_query(s.skip(3))
    } else {
        seq![s[0] as u8] + decoded_query(s.skip(1))
    }
}

/// Decoding a query value that begins with an encoded byte gives that byte
/// first.
proof fn lemma_decode_first(b: u8, rest: Seq<char>)
    ensures
        decoded_query(encoded_byte(b) + rest) == seq![b] + decoded_query(rest),
{
    let s = encoded_byte(b) + rest;
    if is_plain(b) {
        assert(s[0] == b as char);
        assert(s.skip(1) =~= rest);
        assert((b as char) as u8 == b);
    } else {
        assert(s.skip(3) =~= rest);
        assert(hex_value(upper_hex_digit(b as int / 16)) == b as int / 16);
        assert(hex_value(upper_hex_digit(b as int % 16)) == b as int % 16);
    }
}

/// An encoded query value, followed by anything, decodes to the bytes it was
/// made from, followed by what the rest decodes to.
proof fn lemma_decode_prefix(bytes: Seq<u8>, rest: Seq<char>)
    ensures
        decoded_query(encoded_query(bytes) + rest) == bytes + decoded_query(rest),
    decreases bytes.len(),
{
    if bytes.len() == 0 {
        assert(encoded_query(bytes) + rest =~= rest);
        assert(bytes + decoded_query(rest) =~= decoded_query(rest));
    } else {
        let init = bytes.drop_last();
        let b = bytes.last();
        assert(encoded_query(bytes) + rest =~= encoded_query(init) + (encoded_byte(b) + rest));
        lemma_decode_prefix(init, encoded_byte(b) + rest);
        lemma_decode_first(b, rest);
        assert(init + (seq![b] + decoded_query(rest)) =~= bytes + decoded_query(rest));
    }
}

/// Percent-decoding undoes percent-encoding.
pub proof fn law_query_reads_back(bytes: Seq<u8>)
    ensures
        decoded_query(encoded_query(bytes)) == bytes,
{
    lemma_decode_prefix(bytes, seq![]);
    assert(encoded_query(bytes) + Seq::<char>::empty() =~= encoded_query(bytes));
    assert(bytes + decoded_query(seq![]) =~= bytes);
}

/// Nothing in an encoded query value can end the value or the query: every
/// character is a plain one or a percent sign.
pub proof fn law_query_value_is_safe(bytes: Seq<u8>, i: int)
    requires
        0 <= i < encoded_query(bytes).len(),
    ensures
        encoded_query(bytes)[i] == '%' || is_plain(encoded_query(bytes)[i] as u8),
        encoded_query(bytes)[i] as int <= 0x7f,
        encoded_query(bytes)[i] != '&',
        encoded_query(bytes)[i] != '=',
        encoded_query(bytes)[i] != '?',
        encoded_query(bytes)[i] != '#',
        !text::is_white_space(encoded_query(bytes)[i]),
    decreases bytes.len(),
{
    let init = encoded_query(bytes.drop_last());
    let b = bytes.last();
    if i < init.len() {
        law_query_value_is_safe(bytes.drop_last(), i);
        assert(encoded_query(bytes)[i] == init[i]);
    } else {
        assert(encoded_query(bytes)[i] == encoded_byte(b)[i - init.len()]);
    }
}

/// Where an image is pulled from.
pub open spec fn pull_path_text(image: Seq<char>) -> Seq<char> {
    let (name, tag) = image_parts(image);
    let base = "/images/create?fromImage="@ + encoded_query(vstd::utf8::encode_utf8(name));
    if tag.len() == 0 {
        base
    } else {
        base + "&tag="@ + encoded_query(vstd::utf8::encode_utf8(tag))
    }
}

/// The path of the request that pulls an image.
pub fn pull_path(image: &str) -> (out: String)
    ensures
        out@ == pull_path_text(image@),
{
    let (name, tag) = split_image_ref(image);
    let mut out: String = "/images/create?fromImage=".to_owned();
    out.append(encode_query(name.as_str()).as_str());
    if !tag.as_str().is_empty() {
        out.append("&tag=");
        out.append(encode_query(tag.as_str()).as_str());
    }
    out
}

/// The path of the request that asks whether an image is in the local cache.
pub fn image_path(image: &str) -> (out: String)
    ensures
        out@ == "/images/"@ + encoded_query(vstd::utf8::encode_utf8(image@)) + "/json"@,
        out@ == image_path_text(image@),
{
    text::concat3("/images/", encode_query(image).as_str(), "/json")
}

/// Where it is asked whether an image is in the local cache.
pub open spec fn image_path_text(image: Seq<char>) -> Seq<char> {
    "/images/"@ + encoded_query(vstd::utf8::encode_utf8(image)) + "/json"@
}

/// The last index of a character is where it stands and does not stand behind.
proof fn lemma_last_index_is(s: Seq<char>, c: char, i: int)
    requires
        0 <= i < s.len(),
        s[i] == c,
        forall|j: int| i < j < s.len() ==> s[j] != c,
    ensures
        last_index(s, c) == Some(i),
{
    lemma_last_index(s, c);
    assert(s.contains(s[i]));
    let k = last_index(s, c)->0;
    if k < i {
        assert(s[i] != c);
    } else if i < k {
        assert(s[k] != c);
    }
}

/// Whether a text is what stands before the last path segment of a reference: it
/// is empty or ends in a slash.
pub open spec fn is_directory(dir: Seq<char>) -> bool {
    dir.len() == 0 || dir.last() == '/'
}

/// The last path segment is what stands behind the last slash.
proof fn lemma_segment(dir: Seq<char>, segment: Seq<char>)
    requires
        is_directory(dir),
        !segment.contains('/'),
    ensures
        segment_start(dir + segment) == dir.len(),
        (dir + segment).skip(dir.len() as int) == segment,
{
    let image = dir + segment;
    assert(image.skip(dir.len() as int) =~= segment);
    if dir.len() == 0 {
        assert(image =~= segment);
        lemma_last_index(image, '/');
    } else {
        let i = dir.len() - 1;
        assert(image[i] == '/');
        assert forall|j: int| i < j < image.len() implies image[j] != '/' by {
            assert(image[j] == segment[j - dir.len()]);
        }
        lemma_last_index_is(image, '/', i);
    }
}

/// Whether a path asks the engine to pull a repository, and of it one tag or, where
/// there is none, what the reference itself names: behind `fromImage=` stands what
/// percent-decodes to the repository, and behind `&tag=` what percent-decodes to
/// the tag. Neither holds an ampersand, so that they can be told apart.
pub open spec fn asks_to_pull(path: Seq<char>, repository: Seq<char>, tag: Option<Seq<char>>) -> bool {
    exists|name: Seq<char>, version: Seq<char>|
        {
            &&& path == #[trigger] ("/images/create?fromImage="@ + name + version)
            &&& !name.contains('&')
            &&& decoded_query(name) == vstd::utf8::encode_utf8(repository)
            &&& match tag {
                None => version.len() == 0,
                Some(tag) => {
                    &&& version.len() >= 5
                    &&& version.take(5) == seq!['&', 't', 'a', 'g', '=']
                    &&& !version.skip(5).contains('&')
                    &&& decoded_query(version.skip(5)) == vstd::utf8::encode_utf8(tag)
                },
            }
        }
}

/// An encoded query value holds no ampersand.
proof fn lemma_no_ampersand(bytes: Seq<u8>)
    ensures
        !encoded_query(bytes).contains('&'),
{
    let s = encoded_query(bytes);
    if s.contains('&') {
        let i = choose|i: int| 0 <= i < s.len() && s[i] == '&';
        law_query_value_is_safe(bytes, i);
    }
}

/// The path of a pull asks for the parts of the reference.
proof fn lemma_asks_to_pull(image: Seq<char>)
    ensures
        ({
            let (name, tag) = image_parts(image);
            asks_to_pull(
                pull_path_text(image),
                name,
                if tag.len() == 0 {
                    None
                } else {
                    Some(tag)
                },
            )
        }),
{
    reveal_strlit("&tag=");
    let (name, tag) = image_parts(image);
    let n = encoded_query(vstd::utf8::encode_utf8(name));
    let t = encoded_query(vstd::utf8::encode_utf8(tag));
    let start = "/images/create?fromImage="@;
    law_query_reads_back(vstd::utf8::encode_utf8(name));
    law_query_reads_back(vstd::utf8::encode_utf8(tag));
    lemma_no_ampersand(vstd::utf8::encode_utf8(name));
    lemma_no_ampersand(vstd::utf8::encode_utf8(tag));
    if tag.len() == 0 {
        let version: Seq<char> = seq![];
        assert(pull_path_text(image) =~= start + n + version);
    } else {
        let version = "&tag="@ + t;
        assert(version.take(5) =~= seq!['&', 't', 'a', 'g', '=']);
        assert(version.skip(5) =~= t);
        assert(pull_path_text(image) =~= start + n + version);
    }
}

/// A reference by digest is pulled as it is: the path asks for the whole reference
/// and for no tag.
pub proof fn law_digest_is_pulled_without_a_tag(dir: Seq<char>, segment: Seq<char>)
    requires
        is_directory(dir),
        !segment.contains('/'),
        segment.contains('@'),
    ensures
        image_parts(dir + segment) == (dir + segment, Seq::<char>::empty()),
        asks_to_pull(pull_path_text(dir + segment), dir + segment, None),
{
    lemma_segment(dir, segment);
    lemma_asks_to_pull(dir + segment);
}

/// A reference with a tag is pulled by that tag: the path asks for the repository
/// before the last colon and for the tag behind it.
pub proof fn law_tag_is_pulled(dir: Seq<char>, name: Seq<char>, tag: Seq<char>)
    requires
        is_directory(dir),
        !name.contains('/'),
        !name.contains('@'),
        tag.len() > 0,
        !tag.contains('/'),
        !tag.contains('@'),
        !tag.contains(':'),
    ensures
        image_parts(dir + (name + seq![':'] + tag)) == (dir + name, tag),
        asks_to_pull(pull_path_text(dir + (name + seq![':'] + tag)), dir + name, Some(tag)),
{
    let segment = name + seq![':'] + tag;
    let image = dir + segment;
    let n = name.len() as int;
    assert forall|j: int| 0 <= j < segment.len() implies segment[j] != '/' && segment[j] != '@' by {
        if j < n {
            assert(segment[j] == name[j]);
        } else if j > n {
            assert(segment[j] == tag[j - n - 1]);
        }
    }
    lemma_segment(dir, segment);
    assert(segment[n] == ':');
    assert forall|j: int| n < j < segment.len() implies segment[j] != ':' by {
        assert(segment[j] == tag[j - n - 1]);
    }
    lemma_last_index_is(segment, ':', n);
    assert(image.take(dir.len() + n) =~= dir + name);
    assert(segment.skip(n + 1) =~= tag);
    lemma_asks_to_pull(image);
}

/// A reference that names no tag is pulled as its latest one: the path asks for the
/// whole reference and for the tag `latest`, never for all tags.
pub proof fn law_latest_is_pulled_by_default(dir: Seq<char>, name: Seq<char>)
    requires
        is_directory(dir),
        !name.contains('/'),
        !name.contains('@'),
        !name.contains(':') || name.last() == ':',
    ensures
        image_parts(dir + name) == (dir + name, "latest"@),
        asks_to_pull(pull_path_text(dir + name), dir + name, Some(seq!['l', 'a', 't', 'e', 's', 't'])),
{
    reveal_strlit("latest");
    assert("latest"@ =~= seq!['l', 'a', 't', 'e', 's', 't']);
    lemma_segment(dir, name);
    lemma_last_index(name, ':');
    if name.contains(':') {
        lemma_last_index_is(name, ':', name.len() - 1);
    }
    lemma_asks_to_pull(dir + name);
}

/// The images that paths ask for are told apart: where two references are asked for
/// by the same path, they have the same repository and the same tag.
pub proof fn law_different_images_are_pulled_apart(a: Seq<char>, b: Seq<char>)
    requires
        pull_path_text(a) == pull_path_text(b),
    ensures
        image_parts(a) == image_parts(b),
{
    reveal_strlit("&tag=");
    let (na, ta) = image_parts(a);
    let (nb, tb) = image_parts(b);
    let start = "/images/create?fromImage="@;
    let ea = encoded_query(vstd::utf8::encode_utf8(na));
    let eb = encoded_query(vstd::utf8::encode_utf8(nb));
    let fa = encoded_query(vstd::utf8::encode_utf8(ta));
    let fb = encoded_query(vstd::utf8::encode_utf8(tb));
    let va: Seq<char> = if ta.len() == 0 {
        seq![]
    } else {
        "&tag="@ + fa
    };
    let vb: Seq<char> = if tb.len() == 0 {
        seq![]
    } else {
        "&tag="@ + fb
    };
    assert(pull_path_text(a) =~= start + (ea + va));
    assert(pull_path_text(b) =~= start + (eb + vb));
    assert((start + (ea + va)).skip(start.len() as int) =~= ea + va);
    assert((start + (eb + vb)).skip(start.len() as int) =~= eb + vb);
    assert(ea + va == eb + vb);
    lemma_no_ampersand(vstd::utf8::encode_utf8(na));
    lemma_no_ampersand(vstd::utf8::encode_utf8(nb));
    if ea.len() < eb.len() {
        assert((ea + va)[ea.len() as int] == '&');
        assert((eb + vb)[ea.len() as int] == eb[ea.len() as int]);
        assert(eb.contains(eb[ea.len() as int]));
    } else if eb.len() < ea.len() {
        assert((eb + vb)[eb.len() as int] == '&');
        assert((ea + va)[eb.len() as int] == ea[eb.len() as int]);
        assert(ea.contains(ea[eb.len() as int]));
    }
    assert(ea =~= (ea + va).take(ea.len() as int));
    assert(eb =~= (eb + vb).take(eb.len() as int));
    assert(va =~= (ea + va).skip(ea.len() as int));
    assert(vb =~= (eb + vb).skip(eb.len() as int));
    if ta.len() > 0 {
        assert(va.len() >= 5);
        assert(fa =~= va.skip(5));
        assert(fb =~= vb.skip(5));
        lemma_encoded_text_injective(ta, tb);
    } else {
        assert(va.len() == 0);
        assert(ta =~= tb);
    }
    lemma_encoded_text_injective(na, nb);
}

/// A text is encoded in a query as no other is.
proof fn lemma_encoded_text_injective(a: Seq<char>, b: Seq<char>)
    requires
        encoded_query(vstd::utf8::encode_utf8(a)) == encoded_query(vstd::utf8::encode_utf8(b)),
    ensures
        a == b,
{
    law_query_reads_back(vstd::utf8::encode_utf8(a));
    law_query_reads_back(vstd::utf8::encode_utf8(b));
    vstd::utf8::encode_utf8_decode_utf8(a);
    vstd::utf8::encode_utf8_decode_utf8(b);
}

/// It is asked for an image by its whole reference: what stands between the two
/// fixed parts of the path percent-decodes to it.
pub proof fn law_image_is_looked_up_whole(image: Seq<char>)
    ensures
        exists|name: Seq<char>|
            {
                &&& image_path_text(image) == #[trigger] ("/images/"@ + name + "/json"@)
                &&& decoded_query(name) == vstd::utf8::encode_utf8(image)
            },
{
    let name = encoded_query(vstd::utf8::encode_utf8(image));
    law_query_reads_back(vstd::utf8::encode_utf8(image));
    assert(image_path_text(image) == "/images/"@ + name + "/json"@);
}

/// The sixteen hexadecimal digits in upper case.
pub open spec fn upper_hex_digits() -> Seq<char> {
    seq!['0', '1', '2', '3', '4', '5', '6', '7', '8', '9', 'A', 'B', 'C', 'D', 'E', 'F']
}

/// Each byte is encoded on its own: letters, digits and `-_.~/:` stay as they are,
/// and every other byte is a percent sign and its two hexadecimal digits. Bytes in
/// a row are encoded one after the other.
pub proof fn law_query_encodes_byte_by_byte(before: Seq<u8>, b: u8)
    ensures
        encoded_query(Seq::<u8>::empty()) == Seq::<char>::empty(),
        97 <= b <= 122 || 65 <= b <= 90 || 48 <= b <= 57 || b == 45 || b == 95 || b == 46 || b == 126 || b == 47 || b
            == 58 ==> encoded_query(before.push(b)) == encoded_query(before).push(b as char),
        !(97 <= b <= 122 || 65 <= b <= 90 || 48 <= b <= 57 || b == 45 || b == 95 || b == 46 || b == 126 || b == 47
            || b == 58) ==> encoded_query(before.push(b)) == encoded_query(before).push('%').push(
            upper_hex_digits()[b as int / 16],
        ).push(upper_hex_digits()[b as int % 16]),
{
    assert(before.push(b).drop_last() =~= before);
    assert(forall|d: int| 0 <= d < 16 ==> upper_hex_digit(d) == #[trigger] upper_hex_digits()[d]);
    assert(0 <= b as int / 16 < 16);
    assert(0 <= b as int % 16 < 16);
    if is_plain(b) {
        assert(encoded_query(before.push(b)) =~= encoded_query(before).push(b as char));
    } else {
        assert(encoded_query(before.push(b)) =~= encoded_query(before).push('%').push(
            upper_hex_digits()[b as int / 16],
        ).push(upper_hex_digits()[b as int % 16]));
    }
}

} // verus!
