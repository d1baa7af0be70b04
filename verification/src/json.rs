//! JSON documents.
#[allow(unused_imports)]
use vstd::utf8::encode_utf8;
use vstd::prelude::*;

verus! {

/// The lowercase hexadecimal digit of a number below sixteen.
pub open spec fn hex_digit(n: int) -> char {
    if n < 10 {
        (n + '0' as int) as char
    } else {
        (n - 10 + 'a' as int) as char
    }
}

/// A character inside a JSON string: the quotation mark, the reverse solidus and the
/// control characters below U+0020 are escaped.
pub open spec fn escaped(c: char) -> Seq<char> {
    if c == '"' || c == '\\' {
        seq!['\\', c]
    } else if c == '\u{8}' {
        seq!['\\', 'b']
    } else if c == '\t' {
        seq!['\\', 't']
    } else if c == '\n' {
        seq!['\\', 'n']
    } else if c == '\u{c}' {
        seq!['\\', 'f']
    } else if c == '\r' {
        seq!['\\', 'r']
    } else if (c as u32) < 0x20 {
        seq!['\\', 'u', '0', '0', hex_digit(c as int / 16), hex_digit(c as int % 16)]
    } else {
        seq![c]
    }
}

/// The characters of a text, each as inside a JSON string.
pub open spec fn each_escaped(text: Seq<char>) -> Seq<char>
    decreases text.len(),
{
    if text.len() == 0 {
        Seq::empty()
    } else {
        each_escaped(text.drop_last()) + escaped(text.last())
    }
}

/// A text as a JSON string.
pub open spec fn quoted(text: Seq<char>) -> Seq<char> {
    seq!['"'] + each_escaped(text) + seq!['"']
}

/// A JSON object with one entry, laid out over three lines.
pub open spec fn object_of(key: Seq<char>, value: Seq<char>) -> Seq<char> {
    seq!['{', '\n', ' ', ' '] + quoted(key) + seq![':', ' '] + quoted(value) + seq!['\n', '}']
}

/// `serde_json::to_string_pretty` of a text gives it as a JSON string.
#[verifier::external_body]
pub(crate) fn render_text(text: &str) -> (r: String)
    ensures
        r@ == quoted(text@),
{
    serde_json::to_string_pretty(text).expect("Serialization should never fail")
}

/// `serde_json::to_string_pretty` of a map with one entry, whose value is a text,
/// gives the entry on a line of its own, indented by two spaces.
#[verifier::external_body]
pub(crate) fn render_entry(key: &str, value: &str) -> (r: String)
    ensures
        r@ == object_of(key@, value@),
{
    let entry = std::collections::BTreeMap::from([(key, value)]);
    serde_json::to_string_pretty(&entry).expect("Serialization should never fail")
}

/// The text that a JSON document is read as, or why it is read as none.
pub uninterp spec fn text_read(document: Seq<u8>) -> Result<Seq<char>, Seq<char>>;

/// What a string or a reason shows.
pub open spec fn text_or_reason(result: Result<String, String>) -> Result<Seq<char>, Seq<char>> {
    match result {
        Ok(text) => Ok(text@),
        Err(reason) => Err(reason@),
    }
}

/// Whether a result is this text.
pub open spec fn gives_text(result: Result<String, String>, text: Seq<char>) -> bool {
    text_or_reason(result) == Ok::<Seq<char>, Seq<char>>(text)
}

/// `serde_json::from_slice` reads a JSON string as a text; what a text is rendered as
/// is read as that text.
#[verifier::external_body]
pub(crate) fn read_text(document: &[u8]) -> (r: Result<String, String>)
    ensures
        text_or_reason(r) == text_read(document@),
        forall|text: Seq<char>|
            document@ == encode_utf8(#[trigger] quoted(text)) ==> gives_text(r, text),
{
    serde_json::from_slice::<String>(document).map_err(|error| error.to_string())
}

/// The truth value that a JSON document is read as, or why it is read as none.
pub uninterp spec fn flag_read(document: Seq<u8>) -> Result<bool, Seq<char>>;

/// What a truth value or a reason shows.
pub open spec fn flag_or_reason(result: Result<bool, String>) -> Result<bool, Seq<char>> {
    match result {
        Ok(flag) => Ok(flag),
        Err(reason) => Err(reason@),
    }
}

/// Whether a result is this truth value.
pub open spec fn gives_flag(result: Result<bool, String>, flag: bool) -> bool {
    result == Ok::<bool, String>(flag)
}

/// `serde_json::from_slice` reads `true` and `false` as truth values.
#[verifier::external_body]
pub(crate) fn read_flag(document: &[u8]) -> (r: Result<bool, String>)
    ensures
        flag_or_reason(r) == flag_read(document@),
        document@ == encode_utf8("true"@) ==> gives_flag(r, true),
        document@ == encode_utf8("false"@) ==> gives_flag(r, false),
{
    serde_json::from_slice::<bool>(document).map_err(|error| error.to_string())
}

/// Why bytes are not read as a JSON document; none if they are.
pub uninterp spec fn refused(document: Seq<u8>) -> Option<Seq<char>>;

/// What an optional reason shows.
pub open spec fn reason_of(reason: Option<String>) -> Option<Seq<char>> {
    match reason {
        Some(reason) => Some(reason@),
        None => None,
    }
}

/// `serde_json::from_slice` reads any JSON document as a `serde_json::Value`, or says
/// why the bytes are none.
#[verifier::external_body]
pub(crate) fn refuse(document: &[u8]) -> (r: Option<String>)
    ensures
        reason_of(r) == refused(document@),
{
    serde_json::from_slice::<serde_json::Value>(document).err().map(|error| error.to_string())
}

/// A value that can be rendered as JSON.
pub trait Document {
    /// The JSON document; each implementation says what it is.
    open spec fn document(&self) -> Seq<char> {
        arbitrary()
    }

    /// Renders the JSON document.
    fn render(&self) -> (r: String)
        ensures
            r@ == self.document(),
    ;
}

/// A JSON string.
impl Document for &'static str {
    open spec fn document(&self) -> Seq<char> {
        quoted(self@)
    }

    fn render(&self) -> (r: String) {
        render_text(*self)
    }
}

/// A JSON string.
impl Document for String {
    open spec fn document(&self) -> Seq<char> {
        quoted(self@)
    }

    fn render(&self) -> (r: String) {
        render_text(self.as_str())
    }
}

/// `true` or `false`.
impl Document for bool {
    open spec fn document(&self) -> Seq<char> {
        if *self {
            "true"@
        } else {
            "false"@
        }
    }

    fn render(&self) -> (r: String) {
        if *self {
            "true".to_owned()
        } else {
            "false".to_owned()
        }
    }
}

/// `null`.
impl Document for () {
    open spec fn document(&self) -> Seq<char> {
        "null"@
    }

    fn render(&self) -> (r: String) {
        "null".to_owned()
    }
}

/// The object `{ "error": ... }`.
pub struct ErrorBody {
    pub error: String,
}

impl Document for ErrorBody {
    open spec fn document(&self) -> Seq<char> {
        object_of("error"@, self.error@)
    }

    fn render(&self) -> (r: String) {
        render_entry("error", self.error.as_str())
    }
}

/// A JSON string of a text without quotation marks, reverse solidi and control characters
/// is the text between two quotation marks.
pub proof fn law_plain_text_is_quoted_as_it_is(text: Seq<char>)
    requires
        forall|i: int|
            0 <= i < text.len() ==> #[trigger] text[i] != '"' && text[i] != '\\' && text[i] as u32
                >= 0x20,
    ensures
        quoted(text) == seq!['"'] + text + seq!['"'],
{
    lemma_plain_text_is_not_escaped(text);
}

proof fn lemma_plain_text_is_not_escaped(text: Seq<char>)
    requires
        forall|i: int|
            0 <= i < text.len() ==> #[trigger] text[i] != '"' && text[i] != '\\' && text[i] as u32
                >= 0x20,
    ensures
        each_escaped(text) == text,
    decreases text.len(),
{
    if text.len() > 0 {
        let before = text.drop_last();
        assert forall|i: int| 0 <= i < before.len() implies #[trigger] before[i] != '"'
            && before[i] != '\\' && before[i] as u32 >= 0x20 by {
            assert(before[i] == text[i]);
        }
        lemma_plain_text_is_not_escaped(before);
        let last = text[text.len() - 1];
        assert(last != '"' && last != '\\' && last as u32 >= 0x20);
        assert(escaped(last) =~= seq![last]);
        assert(before + seq![last] =~= text);
    } else {
        assert(text =~= Seq::empty());
    }
}

/// The characters of two texts, one after the other, are escaped one after the other; a
/// quotation mark and a reverse solidus have a reverse solidus before them.
pub proof fn law_characters_are_escaped_one_by_one(first: Seq<char>, second: Seq<char>)
    ensures
        each_escaped(first + second) == each_escaped(first) + each_escaped(second),
        escaped('"') == seq!['\\', '"'],
        escaped('\\') == seq!['\\', '\\'],
        escaped('\n') == seq!['\\', 'n'],
        escaped('\r') == seq!['\\', 'r'],
        escaped('\t') == seq!['\\', 't'],
    decreases second.len(),
{
    if second.len() == 0 {
        assert(first + second =~= first);
        assert(each_escaped(first) + each_escaped(second) =~= each_escaped(first));
    } else {
        law_characters_are_escaped_one_by_one(first, second.drop_last());
        assert((first + second).drop_last() =~= first + second.drop_last());
        assert((first + second).last() == second.last());
        assert(each_escaped(first + second) =~= each_escaped(first) + each_escaped(second));
    }
}

/// Each value is rendered as the JSON document that it is.
pub proof fn law_values_are_their_documents(
    literal: &'static str,
    text: String,
    flag: bool,
    error: ErrorBody,
)
    ensures
        literal.document() == quoted(literal@),
        text.document() == quoted(text@),
        true.document() == "true"@,
        false.document() == "false"@,
        ().document() == "null"@,
        error.document() == object_of("error"@, error.error@),
{
}

/// An object of one entry is its key and its value as JSON strings, on a line of its own
/// between braces.
pub proof fn law_object_is_its_entry(key: Seq<char>, value: Seq<char>)
    ensures
        object_of(key, value) == seq!['{', '\n', ' ', ' '] + quoted(key) + seq![':', ' '] + quoted(
            value,
        ) + seq!['\n', '}'],
        quoted(key) == seq!['"'] + each_escaped(key) + seq!['"'],
{
}

} // verus!
