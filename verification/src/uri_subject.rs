//! The path and the query of a URI, as what routing compares.
use crate::fields::Fields;
#[allow(unused_imports)]
use crate::fields::{put, FieldView};
use crate::handler::StringId;
use crate::text;
#[allow(unused_imports)]
use crate::text::{lowercase, pieces, texts};
use std::collections::VecDeque;
#[allow(unused_imports)]
use vstd::std_specs::iter::IteratorSpec;
#[allow(unused_imports)]
use vstd::utf8::{decode_utf8, encode_utf8, valid_utf8};
use vstd::prelude::*;

verus! {

/// The value of a hexadecimal digit.
pub open spec fn hex_value(digit: u8) -> Option<u8> {
    if 0x30 <= digit <= 0x39 {
        Some((digit - 0x30) as u8)
    } else if 0x41 <= digit <= 0x46 {
        Some((digit - 0x41 + 10) as u8)
    } else if 0x61 <= digit <= 0x66 {
        Some((digit - 0x61 + 10) as u8)
    } else {
        None
    }
}

/// The bytes with each `%` that two hexadecimal digits follow, and these digits,
/// replaced by the byte that they stand for.
pub open spec fn percent_decoded(bytes: Seq<u8>) -> Seq<u8>
    decreases bytes.len(),
{
    if bytes.len() == 0 {
        Seq::empty()
    } else if bytes.len() >= 3 && bytes[0] == 0x25 && hex_value(bytes[1]) is Some && hex_value(
        bytes[2],
    ) is Some {
        seq![(16 * hex_value(bytes[1])->0 + hex_value(bytes[2])->0) as u8] + percent_decoded(
            bytes.skip(3),
        )
    } else {
        seq![bytes[0]] + percent_decoded(bytes.skip(1))
    }
}

/// The text that a percent-encoded text stands for, if its bytes are UTF-8.
pub open spec fn url_decoded(text: Seq<char>) -> Option<Seq<char>> {
    let bytes = percent_decoded(encode_utf8(text));
    if valid_utf8(bytes) {
        Some(decode_utf8(bytes))
    } else {
        None
    }
}

/// What an optional string shows.
pub open spec fn text_of(text: Option<String>) -> Option<Seq<char>> {
    match text {
        Some(text) => Some(text@),
        None => None,
    }
}

/// What an optional string shows is its text.
pub proof fn law_optional_text_is_shown(text: String)
    ensures
        text_of(Some(text)) == Some(text@),
        text_of(None) is None,
{
}

/// `urlencoding::decode` replaces each `%` with two hexadecimal digits behind it by
/// the byte that they stand for, keeps all else, and gives the text if that is UTF-8.
#[verifier::external_body]
pub(crate) fn decode(text: &str) -> (r: Option<String>)
    ensures
        text_of(r) == url_decoded(text@),
{
    urlencoding::decode(text).ok().map(|decoded| decoded.into_owned())
}

/// The path and the query that a text has as a URI; none if it is not one. A URI that
/// is an authority alone has neither.
pub uninterp spec fn uri_parts(text: Seq<char>) -> Option<(Option<Seq<char>>, Option<Seq<char>>)>;

/// What an optional pair of optional strings shows.
pub open spec fn parts_of(parts: Option<(Option<String>, Option<String>)>) -> Option<
    (Option<Seq<char>>, Option<Seq<char>>),
> {
    match parts {
        Some((path, query)) => Some((text_of(path), text_of(query))),
        None => None,
    }
}

/// `hyper::Uri` parses the text; its `path_and_query` gives the path and, if there is
/// one, the query.
#[verifier::external_body]
pub(crate) fn parse_uri(text: &str) -> (r: Option<(Option<String>, Option<String>)>)
    ensures
        parts_of(r) == uri_parts(text@),
{
    let uri: hyper::Uri = text.parse().ok()?;
    let target = uri.path_and_query();
    let path = target.map(|target| target.path().to_owned());
    let query = target.and_then(|target| target.query()).map(|query| query.to_owned());
    Some((path, query))
}

/// What routing reads of a URI.
pub struct Uri {
    pub path: Option<String>,
    pub query: Option<String>,
}

impl Uri {
    /// Reads `text` as a URI.
    pub fn parse(text: &str) -> (r: Option<Uri>)
        ensures
            match r {
                Some(uri) => uri_parts(text@) == Some((text_of(uri.path), text_of(uri.query))),
                None => uri_parts(text@) is None,
            },
    {
        match parse_uri(text) {
            Some((path, query)) => Some(Uri { path, query }),
            None => None,
        }
    }
}

/// Whether a character is replaced in a path segment.
pub open spec fn special(c: char) -> bool {
    c == '.' || c == ' ' || c == '*' || c == '>'
}

/// A text with an underscore in place of each special character.
pub open spec fn replaced(text: Seq<char>) -> Seq<char> {
    text.map_values(
        |c: char|
            if special(c) {
                '_'
            } else {
                c
            },
    )
}

/// Puts an underscore in place of each `.`, space, `*` and `>`.
pub fn replace_special_chars(path: String) -> (r: String)
    ensures
        r@ == replaced(path@),
        r@.len() == path@.len(),
        forall|i: int|
            0 <= i < path@.len() ==> #[trigger] r@[i] == if path@[i] == '.' || path@[i] == ' '
                || path@[i] == '*' || path@[i] == '>' {
                '_'
            } else {
                path@[i]
            },
{
    let mut r: String = String::new();
    for c in it: path.chars()
        invariant
            it.seq() == path@,
            r@ == replaced(path@.take(it.index())),
    {
        let ghost i = it.index();
        let ghost before = r@;
        if c == '.' || c == ' ' || c == '*' || c == '>' {
            r.push('_');
        } else {
            r.push(c);
        }
        assert(replaced(path@.take(i + 1)) =~= before.push(
            if special(c) {
                '_'
            } else {
                c
            },
        ));
    }
    assert(path@.take(path@.len() as int) =~= path@);
    r
}

/// The path segment that a piece of a path is: decoded, and with the special
/// characters replaced. A piece that is empty or cannot be decoded is none.
pub open spec fn segment_of(piece: Seq<char>) -> Option<Seq<char>> {
    match url_decoded(piece) {
        Some(text) => if text.len() > 0 {
            Some(replaced(text))
        } else {
            None
        },
        None => None,
    }
}

/// The path segments among some pieces, in their order.
pub open spec fn segments_of(list: Seq<Seq<char>>) -> Seq<Seq<char>>
    decreases list.len(),
{
    if list.len() == 0 {
        Seq::empty()
    } else {
        let before = segments_of(list.drop_last());
        match segment_of(list.last()) {
            Some(segment) => before.push(segment),
            None => before,
        }
    }
}

/// The segments of a path.
pub open spec fn path_segments(path: Seq<char>) -> Seq<Seq<char>> {
    segments_of(pieces(path, '/'))
}

/// Whether the keys are made from the texts, one by one.
pub open spec fn made_from_each(keys: Seq<StringId>, from: Seq<Seq<char>>) -> bool {
    &&& keys.len() == from.len()
    &&& forall|i: int| 0 <= i < keys.len() ==> (#[trigger] keys[i]).made_from(from[i])
}

/// The segments of a path.
pub fn path_str_to_path(path: &str) -> (r: VecDeque<StringId>)
    ensures
        made_from_each(r@, path_segments(path@)),
        r@.len() == path_segments(path@).len(),
        forall|i: int|
            0 <= i < r@.len() ==> (#[trigger] r@[i]).text() == path_segments(path@)[i]
                && r@[i].ident() == lowercase(path_segments(path@)[i]),
{
    let list = text::split(path, '/');
    let ghost all = texts(list@);
    let mut r: VecDeque<StringId> = VecDeque::new();
    let mut i: usize = 0;
    assert(all.take(0) =~= Seq::empty());
    while i < list.len()
        invariant
            i <= list.len(),
            all == texts(list@),
            made_from_each(r@, segments_of(all.take(i as int))),
        decreases list.len() - i,
    {
        proof {
            assert(all.take(i + 1).drop_last() =~= all.take(i as int));
            assert(all.take(i + 1).last() == list@[i as int]@);
        }
        if let Some(decoded) = decode(list[i].as_str()) {
            if decoded.as_str().unicode_len() > 0 {
                r.push_back(StringId::from(replace_special_chars(decoded)));
            }
        }
        i = i + 1;
    }
    assert(all.take(all.len() as int) =~= all);
    r
}

/// The segments of the path of a URI.
pub fn uri_to_path(uri: Uri) -> (r: VecDeque<StringId>)
    ensures
        made_from_each(
            r@,
            match uri.path {
                Some(path) => path_segments(path@),
                None => Seq::empty(),
            },
        ),
        match uri.path {
            Some(path) => {
                &&& r@.len() == path_segments(path@).len()
                &&& forall|i: int|
                    0 <= i < r@.len() ==> (#[trigger] r@[i]).text() == path_segments(path@)[i]
                        && r@[i].ident() == lowercase(path_segments(path@)[i])
            },
            None => r@.len() == 0,
        },
{
    match uri.path {
        Some(path) => path_str_to_path(path.as_str()),
        None => VecDeque::new(),
    }
}

/// The key and the value that a piece of a query holds: cut at its first `=`, each
/// part decoded. Without a `=` the value is empty; a piece of which a part cannot be
/// decoded holds none.
pub open spec fn parameter_of(piece: Seq<char>) -> Option<(Seq<char>, Seq<char>)> {
    let (key, value) = match text::cut(piece, '=') {
        Some((key, value)) => (key, value),
        None => (piece, Seq::empty()),
    };
    match (url_decoded(key), url_decoded(value)) {
        (Some(key), Some(value)) => Some((key, value)),
        _ => None,
    }
}

/// The parameters among some pieces of a query. Of equal keys the value of the last
/// one counts; the key keeps the spelling of the first.
pub open spec fn parameters_of(list: Seq<Seq<char>>) -> Map<Seq<char>, FieldView>
    decreases list.len(),
{
    if list.len() == 0 {
        Map::empty()
    } else {
        let before = parameters_of(list.drop_last());
        match parameter_of(list.last()) {
            Some((key, value)) => put(before, key, value),
            None => before,
        }
    }
}

/// The parameters of a query.
pub open spec fn query_parameters(query: Seq<char>) -> Map<Seq<char>, FieldView> {
    parameters_of(pieces(query, '&'))
}

/// The parameters of the query of a URI.
pub fn uri_to_query(uri: &Uri) -> (r: Fields)
    ensures
        r@ == match uri.query {
            Some(query) => query_parameters(query@),
            None => Map::empty(),
        },
{
    let mut r = Fields::new();
    let query = match &uri.query {
        Some(query) => query,
        None => {
            return r;
        },
    };
    let list = text::split(query.as_str(), '&');
    let ghost all = texts(list@);
    let mut i: usize = 0;
    assert(all.take(0) =~= Seq::empty());
    while i < list.len()
        invariant
            i <= list.len(),
            all == texts(list@),
            r@ == parameters_of(all.take(i as int)),
        decreases list.len() - i,
    {
        proof {
            assert(all.take(i + 1).drop_last() =~= all.take(i as int));
            assert(all.take(i + 1).last() == list@[i as int]@);
        }
        let parts = match text::split_once(list[i].as_str(), '=') {
            Some((key, value)) => (decode(key.as_str()), decode(value.as_str())),
            None => (decode(list[i].as_str()), decode(String::new().as_str())),
        };
        if let (Some(key), Some(value)) = parts {
            let _ = r.insert(StringId::from(key), value);
        }
        i = i + 1;
    }
    assert(all.take(all.len() as int) =~= all);
    r
}

/// No segment of a path is empty or holds a `.`, a space, a `*` or a `>`.
pub proof fn law_segments_are_clean(path: Seq<char>)
    ensures
        forall|i: int|
            0 <= i < path_segments(path).len() ==> {
                let segment = #[trigger] path_segments(path)[i];
                &&& segment.len() > 0
                &&& forall|j: int| 0 <= j < segment.len() ==> !special(#[trigger] segment[j])
            },
{
    lemma_segments_are_clean(pieces(path, '/'));
}

proof fn lemma_segments_are_clean(list: Seq<Seq<char>>)
    ensures
        forall|i: int|
            0 <= i < segments_of(list).len() ==> {
                let segment = #[trigger] segments_of(list)[i];
                &&& segment.len() > 0
                &&& forall|j: int| 0 <= j < segment.len() ==> !special(#[trigger] segment[j])
            },
    decreases list.len(),
{
    if list.len() > 0 {
        lemma_segments_are_clean(list.drop_last());
        assert forall|i: int| 0 <= i < segments_of(list).len() implies {
            let segment = #[trigger] segments_of(list)[i];
            &&& segment.len() > 0
            &&& forall|j: int| 0 <= j < segment.len() ==> !special(#[trigger] segment[j])
        } by {
            if i < segments_of(list.drop_last()).len() {
                assert(segments_of(list)[i] == segments_of(list.drop_last())[i]);
            }
        }
    }
}

proof fn lemma_segments_of_both(first: Seq<Seq<char>>, second: Seq<Seq<char>>)
    ensures
        segments_of(first + second) == segments_of(first) + segments_of(second),
    decreases second.len(),
{
    if second.len() == 0 {
        assert(first + second =~= first);
    } else {
        lemma_segments_of_both(first, second.drop_last());
        assert((first + second).drop_last() =~= first + second.drop_last());
    }
    assert(segments_of(first + second) =~= segments_of(first) + segments_of(second));
}

/// The segments of two paths joined by a slash are those of the first followed by
/// those of the second. So a slash at the start or the end of a path, or one that
/// follows another, changes nothing.
pub proof fn law_joined_paths(first: Seq<char>, second: Seq<char>)
    ensures
        path_segments(first + seq!['/'] + second) == path_segments(first) + path_segments(second),
        path_segments(Seq::empty()) == Seq::<Seq<char>>::empty(),
{
    text::lemma_pieces_joined(first, second, '/');
    lemma_segments_of_both(pieces(first, '/'), pieces(second, '/'));
    let nothing = Seq::<char>::empty();
    assert(pieces(nothing, '/') == seq![nothing]);
    assert(encode_utf8(nothing) =~= Seq::<u8>::empty());
    assert(percent_decoded(Seq::<u8>::empty()) =~= Seq::<u8>::empty());
    assert(decode_utf8(Seq::<u8>::empty()) =~= Seq::<char>::empty());
    assert(segments_of(seq![nothing].drop_last()) =~= Seq::empty());
}

proof fn lemma_nothing_to_decode(bytes: Seq<u8>)
    requires
        !bytes.contains(0x25),
    ensures
        percent_decoded(bytes) == bytes,
    decreases bytes.len(),
{
    if bytes.len() > 0 {
        let rest = bytes.skip(1);
        assert(bytes.contains(bytes[0]));
        assert forall|b: u8| rest.contains(b) implies bytes.contains(b) by {
            let i = choose|i: int| 0 <= i < rest.len() && rest[i] == b;
            assert(bytes[i + 1] == b);
        }
        lemma_nothing_to_decode(rest);
        assert(seq![bytes[0]] + rest =~= bytes);
    }
    assert(percent_decoded(bytes) =~= bytes);
}

/// A piece of a path that is its own segment is a path of one segment.
pub proof fn lemma_one_segment(piece: Seq<char>)
    requires
        segment_of(piece) == Some(piece),
        !piece.contains('/'),
    ensures
        path_segments(piece) == seq![piece],
{
    text::lemma_pieces_whole(piece, '/');
    let list = seq![piece];
    assert(list.drop_last() =~= Seq::empty());
    assert(segments_of(list.drop_last()) == Seq::<Seq<char>>::empty());
    assert(list.last() == piece);
    assert(segments_of(list) =~= seq![piece]);
}

/// An ASCII character other than `%` and the special ones.
pub open spec fn plain(c: char) -> bool {
    '\0' <= c <= '\u{7f}' && c != '%' && !special(c)
}

/// A piece of a path that is made of ASCII characters other than `%` and the special
/// ones is its own segment.
pub proof fn law_plain_piece_is_kept(piece: Seq<char>)
    requires
        piece.len() > 0,
        forall|i: int| 0 <= i < piece.len() ==> plain(#[trigger] piece[i]),
    ensures
        segment_of(piece) == Some(piece),
{
    assert forall|i: int| 0 <= i < piece.len() implies '\0' <= #[trigger] piece[i] <= '\u{7f}' by {
        assert(plain(piece[i]));
    }
    vstd::utf8::is_ascii_chars_encode_utf8(piece);
    let bytes = encode_utf8(piece);
    assert forall|i: int| 0 <= i < bytes.len() implies bytes[i] != 0x25 by {
        let c = piece[i];
        assert(plain(c));
        assert(bytes[i] == c as u8);
        assert(c as u8 == c as u32);
    }
    lemma_nothing_to_decode(bytes);
    vstd::utf8::encode_utf8_valid_utf8(piece);
    vstd::utf8::encode_utf8_decode_utf8(piece);
    assert(replaced(piece) =~= piece);
}

/// A text in which the special characters are replaced has an underscore in place of each
/// `.`, space, `*` and `>`, and every other character as it was.
pub proof fn law_special_characters_become_underscores(text: Seq<char>)
    ensures
        replaced(text).len() == text.len(),
        forall|i: int|
            0 <= i < text.len() ==> #[trigger] replaced(text)[i] == if text[i] == '.' || text[i]
                == ' ' || text[i] == '*' || text[i] == '>' {
                '_'
            } else {
                text[i]
            },
{
}

/// A piece of a path is a segment exactly if it decodes to a text that is not empty. The
/// segment has the characters of that text, but for an underscore in place of each `.`,
/// space, `*` and `>`.
pub proof fn law_segment_is_the_decoded_piece(piece: Seq<char>)
    ensures
        segment_of(piece) is Some <==> (url_decoded(piece) matches Some(text) && text.len() > 0),
        segment_of(piece) matches Some(segment) ==> {
            let text = url_decoded(piece)->0;
            &&& segment.len() == text.len()
            &&& forall|i: int|
                0 <= i < text.len() ==> #[trigger] segment[i] == if text[i] == '.' || text[i]
                    == ' ' || text[i] == '*' || text[i] == '>' {
                    '_'
                } else {
                    text[i]
                }
        },
{
}

/// A path without a slash has the segment that it is, or none.
pub proof fn law_path_without_a_slash(piece: Seq<char>)
    requires
        !piece.contains('/'),
    ensures
        path_segments(piece) == match segment_of(piece) {
            Some(segment) => seq![segment],
            None => Seq::empty(),
        },
{
    text::lemma_pieces_whole(piece, '/');
    let list = seq![piece];
    assert(list.drop_last() =~= Seq::empty());
    assert(segments_of(list.drop_last()) == Seq::<Seq<char>>::empty());
    assert(list.last() == piece);
    assert(segments_of(list) =~= match segment_of(piece) {
        Some(segment) => seq![segment],
        None => Seq::empty(),
    });
}

/// A text of ASCII characters other than `%` is its own decoding.
pub proof fn law_plain_text_decodes_to_itself(text: Seq<char>)
    requires
        forall|i: int| 0 <= i < text.len() ==> '\0' <= #[trigger] text[i] <= '\u{7f}' && text[i] != '%',
    ensures
        url_decoded(text) == Some(text),
{
    vstd::utf8::is_ascii_chars_encode_utf8(text);
    let bytes = encode_utf8(text);
    assert forall|i: int| 0 <= i < bytes.len() implies bytes[i] != 0x25 by {
        let c = text[i];
        assert(bytes[i] == c as u8);
        assert(c as u8 == c as u32);
    }
    lemma_nothing_to_decode(bytes);
    vstd::utf8::encode_utf8_valid_utf8(text);
    vstd::utf8::encode_utf8_decode_utf8(text);
}

/// What one more piece makes of the parameters of a query.
proof fn lemma_one_more_piece(query: Seq<char>, piece: Seq<char>)
    requires
        !piece.contains('&'),
    ensures
        query_parameters(query + seq!['&'] + piece) == match parameter_of(piece) {
            Some((key, value)) => put(query_parameters(query), key, value),
            None => query_parameters(query),
        },
        query_parameters(piece) == match parameter_of(piece) {
            Some((key, value)) => put(Map::empty(), key, value),
            None => Map::empty(),
        },
{
    text::lemma_pieces_joined(query, piece, '&');
    text::lemma_pieces_whole(piece, '&');
    let before = pieces(query, '&');
    let list = before + seq![piece];
    assert(list.drop_last() =~= before);
    assert(list.last() == piece);
    assert(seq![piece].drop_last() =~= Seq::empty());
    assert(seq![piece].last() == piece);
    assert(parameters_of(Seq::<Seq<char>>::empty()) == Map::<Seq<char>, FieldView>::empty());
    assert(parameters_of(seq![piece].drop_last()) == Map::<Seq<char>, FieldView>::empty());
}

proof fn lemma_parameter_is_cut(key: Seq<char>, value: Seq<char>)
    requires
        !key.contains('='),
        !key.contains('&'),
        !value.contains('&'),
    ensures
        !(key + seq!['='] + value).contains('&'),
        parameter_of(key + seq!['='] + value) == match (url_decoded(key), url_decoded(value)) {
            (Some(name), Some(text)) => Some((name, text)),
            _ => None,
        },
{
    text::law_joined_texts_are_cut(key, '=', value);
    let piece = key + seq!['='] + value;
    assert forall|i: int| 0 <= i < piece.len() implies piece[i] != '&' by {
        if i < key.len() {
            assert(key.contains(key[i]));
        } else if i > key.len() {
            assert(value.contains(value[i - key.len() - 1]));
        }
    }
}

/// The value of a query parameter is the decoding of what stands behind its first `=`,
/// with its casing; it takes the place of an earlier value of the name. The name is the
/// decoding of what stands before the `=`, in the spelling that came first. No other
/// parameter changes.
pub proof fn law_parameter_has_the_decoded_value(
    query: Seq<char>,
    key: Seq<char>,
    value: Seq<char>,
    name: Seq<char>,
    text: Seq<char>,
    other: Seq<char>,
)
    requires
        !key.contains('='),
        !key.contains('&'),
        !value.contains('&'),
        url_decoded(key) == Some(name),
        url_decoded(value) == Some(text),
        other != lowercase(name),
    ensures
        ({
            let before = query_parameters(query);
            let after = query_parameters(query + seq!['&'] + (key + seq!['='] + value));
            &&& after.contains_key(lowercase(name))
            &&& after[lowercase(name)].value == text
            &&& after[lowercase(name)].name == if before.contains_key(lowercase(name)) {
                before[lowercase(name)].name
            } else {
                name
            }
            &&& after.contains_key(other) <==> before.contains_key(other)
            &&& after[other] == before[other]
        }),
{
    lemma_parameter_is_cut(key, value);
    lemma_one_more_piece(query, key + seq!['='] + value);
}

/// A query of one parameter has that parameter and no other: its value is the decoding of
/// what stands behind the first `=`, with its casing.
pub proof fn law_lone_parameter(
    key: Seq<char>,
    value: Seq<char>,
    name: Seq<char>,
    text: Seq<char>,
    id: Seq<char>,
)
    requires
        !key.contains('='),
        !key.contains('&'),
        !value.contains('&'),
        url_decoded(key) == Some(name),
        url_decoded(value) == Some(text),
    ensures
        query_parameters(key + seq!['='] + value).contains_key(id) <==> id == lowercase(name),
        query_parameters(key + seq!['='] + value)[lowercase(name)].name == name,
        query_parameters(key + seq!['='] + value)[lowercase(name)].value == text,
{
    lemma_parameter_is_cut(key, value);
    lemma_one_more_piece(Seq::empty(), key + seq!['='] + value);
}

/// A key and a value of ASCII characters other than `%` are kept letter by letter.
pub proof fn law_plain_parameter_is_kept(key: Seq<char>, value: Seq<char>)
    requires
        forall|i: int|
            0 <= i < key.len() ==> '\0' <= #[trigger] key[i] <= '\u{7f}' && key[i] != '%' && key[i]
                != '=' && key[i] != '&',
        forall|i: int|
            0 <= i < value.len() ==> '\0' <= #[trigger] value[i] <= '\u{7f}' && value[i] != '%'
                && value[i] != '&',
    ensures
        query_parameters(key + seq!['='] + value).contains_key(lowercase(key)),
        query_parameters(key + seq!['='] + value)[lowercase(key)].name == key,
        query_parameters(key + seq!['='] + value)[lowercase(key)].value == value,
{
    law_plain_text_decodes_to_itself(key);
    law_plain_text_decodes_to_itself(value);
    law_lone_parameter(key, value, key, value, lowercase(key));
}

/// A piece of a query without a `=` is a parameter without a value; one that cannot be
/// decoded is passed over, and a query without a piece has no parameter.
pub proof fn law_parameter_without_a_value(query: Seq<char>, key: Seq<char>, other: Seq<char>)
    requires
        !key.contains('='),
        !key.contains('&'),
    ensures
        ({
            let before = query_parameters(query);
            let after = query_parameters(query + seq!['&'] + key);
            match url_decoded(key) {
                Some(name) => {
                    &&& after.contains_key(lowercase(name))
                    &&& after[lowercase(name)].value.len() == 0
                    &&& after[lowercase(name)].name == if before.contains_key(lowercase(name)) {
                        before[lowercase(name)].name
                    } else {
                        name
                    }
                    &&& other != lowercase(name) ==> (after.contains_key(other)
                        <==> before.contains_key(other)) && after[other] == before[other]
                },
                None => after == before,
            }
        }),
{
    text::law_cut_parts_the_text(key, '=');
    let nothing = Seq::<char>::empty();
    law_plain_text_decodes_to_itself(nothing);
    lemma_one_more_piece(query, key);
}

/// A parameter of which the key or the value cannot be decoded is passed over.
pub proof fn law_undecodable_parameter_is_passed_over(
    query: Seq<char>,
    key: Seq<char>,
    value: Seq<char>,
)
    requires
        !key.contains('='),
        !key.contains('&'),
        !value.contains('&'),
        url_decoded(key) is None || url_decoded(value) is None,
    ensures
        query_parameters(query + seq!['&'] + (key + seq!['='] + value)) == query_parameters(query),
{
    lemma_parameter_is_cut(key, value);
    lemma_one_more_piece(query, key + seq!['='] + value);
}

} // verus!
