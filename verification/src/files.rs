//! A browsable, editable file tree.
use crate::buffers;
#[allow(unused_imports)]
use crate::buffers::{filled, held};
use crate::fields::Fields;
#[allow(unused_imports)]
use crate::fields::FieldView;
#[allow(unused_imports)]
use crate::handler::{
    BufferedBody, Either, HttpResponse, Json, Json201, Request, RequestView, ResourceLocation,
    Response, ResponseBody, StringId, default_location, least,
};
use crate::http;
use crate::http::{Method, MethodView, StatusCode};
use crate::json;
use crate::json::Document;
#[allow(unused_imports)]
use crate::router::walk::{
    ActionView, claims_method, claims_request, claims_segment, decided, found_leaf,
    lemma_first_is, not_allowed,
};
use crate::router::{
    DeclarationView, EntryView, Guard, GuardView, MakeRoute, Methods, MethodsView, Node, Router,
    RouterDerived, SegmentsView, Stage,
};
use crate::server::WriteBody;
#[allow(unused_imports)]
use crate::server::room_in;
use bytes::{Bytes, BytesMut};
use std::borrow::Cow;
use std::collections::VecDeque;
#[allow(unused_imports)]
use vstd::utf8::{encode_utf8, valid_utf8};
use vstd::prelude::*;

verus! {

/// The bytes of some chunks, one after the other.
pub open spec fn joined(chunks: Seq<Bytes>) -> Seq<u8>
    decreases chunks.len(),
{
    if chunks.len() == 0 {
        Seq::empty()
    } else {
        held(chunks[0]) + joined(chunks.drop_first())
    }
}

proof fn lemma_joined_push(chunks: Seq<Bytes>, chunk: Bytes)
    ensures
        joined(chunks.push(chunk)) == joined(chunks) + held(chunk),
    decreases chunks.len(),
{
    if chunks.len() == 0 {
        assert(chunks.push(chunk).drop_first() =~= Seq::empty());
        assert(chunks.push(chunk)[0] == chunk);
        assert(joined(chunks.push(chunk).drop_first()) == Seq::<u8>::empty());
        assert(joined(chunks.push(chunk)) =~= joined(chunks) + held(chunk));
    } else {
        lemma_joined_push(chunks.drop_first(), chunk);
        assert(chunks.push(chunk).drop_first() =~= chunks.drop_first().push(chunk));
        assert(joined(chunks.push(chunk)) =~= joined(chunks) + held(chunk));
    }
}

/// A page of HTML.
pub struct HtmlFile(pub VecDeque<Bytes>);

impl View for HtmlFile {
    type V = Seq<u8>;

    open spec fn view(&self) -> Seq<u8> {
        joined(self.0@)
    }
}

impl HtmlFile {
    /// An empty page.
    pub fn new() -> (r: HtmlFile)
        ensures
            r@ == Seq::<u8>::empty(),
    {
        HtmlFile(VecDeque::new())
    }

    fn push(&mut self, markup: String)
        ensures
            final(self)@ == old(self)@ + encode_utf8(markup@),
    {
        let chunk = buffers::encoded(markup);
        proof {
            lemma_joined_push(self.0@, chunk);
        }
        self.0.push_back(chunk);
    }

    /// Appends a list round what `middle` appends.
    pub fn ul<F>(&mut self, middle: F) where F: FnOnce(&mut HtmlFile)
        requires
            forall|page: &mut HtmlFile| middle.requires((page,)),
        ensures
            exists|page: &mut HtmlFile|
                {
                    &&& (*page)@ == old(self)@ + encode_utf8("<ul>"@)
                    &&& #[trigger] middle.ensures((page,), ())
                    &&& final(self)@ == (*final(page))@ + encode_utf8("</ul>"@)
                },
    {
        self.push("<ul>".to_owned());
        middle(self);
        self.push("</ul>".to_owned());
    }

    /// Appends an item of a list round what `middle` appends.
    pub fn li<F>(&mut self, middle: F) where F: FnOnce(&mut HtmlFile)
        requires
            forall|page: &mut HtmlFile| middle.requires((page,)),
        ensures
            exists|page: &mut HtmlFile|
                {
                    &&& (*page)@ == old(self)@ + encode_utf8("<li>"@)
                    &&& #[trigger] middle.ensures((page,), ())
                    &&& final(self)@ == (*final(page))@ + encode_utf8("</li>"@)
                },
    {
        self.push("<li>".to_owned());
        middle(self);
        self.push("</li>".to_owned());
    }

    /// Appends a link.
    pub fn a(&mut self, link: String, text: String)
        ensures
            final(self)@ == old(self)@ + encode_utf8(anchor(link@, text@)),
    {
        let mut markup: String = "<a href=\"".to_owned();
        markup.append(link.as_str());
        markup.append("\">");
        markup.append(text.as_str());
        markup.append("</a>");
        assert(markup@ =~= anchor(link@, text@));
        self.push(markup);
    }
}

/// A link.
pub open spec fn anchor(link: Seq<char>, text: Seq<char>) -> Seq<char> {
    "<a href=\""@ + link + "\">"@ + text + "</a>"@
}

/// The items of a list of links, each given by its link and its text.
pub open spec fn items(entries: Seq<(String, String)>) -> Seq<u8>
    decreases entries.len(),
{
    if entries.len() == 0 {
        Seq::empty()
    } else {
        items(entries.drop_last()) + encode_utf8("<li>"@) + encode_utf8(
            anchor(entries.last().0@, entries.last().1@),
        ) + encode_utf8("</li>"@)
    }
}

fn push_item(html: &mut HtmlFile, link: &String, text: &String)
    ensures
        final(html)@ == old(html)@ + encode_utf8("<li>"@) + encode_utf8(anchor(link@, text@))
            + encode_utf8("</li>"@),
{
    let middle = |page: &mut HtmlFile| -> (r: ())
        ensures
            final(page)@ == old(page)@ + encode_utf8(anchor(link@, text@)),
        { page.a(link.clone(), text.clone()) };
    html.li(middle);
}

fn push_items(html: &mut HtmlFile, entries: &Vec<(String, String)>)
    ensures
        final(html)@ == old(html)@ + items(entries@),
{
    let ghost before = html@;
    let mut i: usize = 0;
    assert(entries@.take(0) =~= Seq::empty());
    assert(before + Seq::empty() =~= before);
    while i < entries.len()
        invariant
            i <= entries.len(),
            html@ == before + items(entries@.take(i as int)),
        decreases entries.len() - i,
    {
        push_item(html, &entries[i].0, &entries[i].1);
        proof {
            assert(entries@.take(i + 1).drop_last() =~= entries@.take(i as int));
            assert(html@ =~= before + items(entries@.take(i + 1)));
        }
        i = i + 1;
    }
    assert(entries@.take(entries@.len() as int) =~= entries@);
}

/// A page with a list of links.
pub fn listing(entries: Vec<(String, String)>) -> (r: HtmlFile)
    ensures
        r@ == encode_utf8("<ul>"@) + items(entries@) + encode_utf8("</ul>"@),
{
    let mut html = HtmlFile::new();
    let middle = |page: &mut HtmlFile| -> (r: ())
        ensures
            final(page)@ == old(page)@ + items(entries@),
        { push_items(page, &entries) };
    html.ul(middle);
    assert(html@ =~= encode_utf8("<ul>"@) + items(entries@) + encode_utf8("</ul>"@));
    html
}

impl Response for HtmlFile {
    type Body = Chunks;

    open spec fn status(&self) -> StatusCode {
        StatusCode(http::OK)
    }

    open spec fn headers(&self) -> Map<Seq<char>, FieldView> {
        Map::empty()
    }

    open spec fn has_body(&self, body: Chunks) -> bool {
        body.0 == self.0
    }

    fn status_code(&self) -> (r: StatusCode) {
        StatusCode(http::OK)
    }

    fn into_body(self) -> (r: Chunks) {
        Chunks(self.0)
    }

    fn extra_headers(&self) -> (r: Fields) {
        Fields::new()
    }
}

/// A body of HTML, in chunks.
pub struct Chunks(pub VecDeque<Bytes>);

impl ResponseBody for Chunks {
    open spec fn mime(&self) -> Seq<char> {
        "text/html"@
    }

    open spec fn size(&self) -> Option<u64> {
        Some((joined(self.0@).len() % 0x1_0000_0000_0000_0000) as u64)
    }

    fn content_type(&self) -> (r: Cow<'static, str>) {
        Cow::Borrowed("text/html")
    }

    fn length(&self) -> (r: Option<u64>) {
        let mut sum: u64 = 0;
        let mut i: usize = 0;
        assert(self.0@.take(0) =~= Seq::empty());
        while i < self.0.len()
            invariant
                i <= self.0@.len(),
                sum == joined(self.0@.take(i as int)).len() % 0x1_0000_0000_0000_0000,
            decreases self.0@.len() - i,
        {
            proof {
                lemma_joined_push(self.0@.take(i as int), self.0@[i as int]);
                assert(self.0@.take(i as int).push(self.0@[i as int]) =~= self.0@.take(i + 1));
            }
            sum = sum.wrapping_add(self.0[i].len() as u64);
            i = i + 1;
        }
        assert(self.0@.take(self.0@.len() as int) =~= self.0@);
        Some(sum)
    }
}

impl BufferedBody for Chunks {
    open spec fn rest(&self) -> Seq<u8> {
        joined(self.0@)
    }

    fn poll_read(&mut self, room: usize) -> (r: Vec<u8>) {
        let mut out: Vec<u8> = Vec::new();
        let ghost all = joined(self.0@);
        assert(out@ + joined(self.0@) =~= all);
        while out.len() < room
            invariant_except_break
                out@ + joined(self.0@) == all,
                out.len() <= room,
            ensures
                out@ + joined(self.0@) == all,
                out.len() == room || (out.len() < room && joined(self.0@).len() == 0),
            decreases self.0@.len(),
        {
            let ghost before = self.0@;
            let mut first = match self.0.pop_front() {
                Some(first) => first,
                None => {
                    break;
                },
            };
            proof {
                assert(self.0@ =~= before.drop_first());
            }
            let free: usize = room - out.len();
            let n: usize = if first.len() <= free {
                first.len()
            } else {
                free
            };
            let ghost whole = held(first);
            let ghost so_far = out@;
            let taken = first.split_to(n);
            let mut bytes = vstd::slice::slice_to_vec(buffers::slice_of(&taken));
            out.append(&mut bytes);
            if first.is_empty() {
                assert(whole.take(n as int) =~= whole);
                assert(out@ + joined(self.0@) =~= so_far + (whole + joined(self.0@)));
            } else {
                let ghost rest = self.0@;
                self.0.push_front(first);
                proof {
                    assert(self.0@.drop_first() =~= rest);
                    assert(whole.take(n as int) + whole.skip(n as int) =~= whole);
                    assert(out@ + joined(self.0@) =~= so_far + (whole + joined(rest)));
                }
                break;
            }
        }
        proof {
            let n = least(room as int, all.len() as int);
            assert(out@ =~= all.take(n));
            assert(joined(self.0@) =~= all.skip(n));
        }
        out
    }
}

/// The MIME type that the first bytes of a file show; none if they show none.
pub uninterp spec fn inferred(bytes: Seq<u8>) -> Option<Seq<char>>;

/// What an optional text shows.
pub open spec fn str_of(text: Option<&'static str>) -> Option<Seq<char>> {
    match text {
        Some(text) => Some(text@),
        None => None,
    }
}

/// `infer::get` tells the type of a file by its first bytes; `mime_type` names it.
#[verifier::external_body]
pub(crate) fn infer_mime(bytes: &[u8]) -> (r: Option<&'static str>)
    ensures
        str_of(r) == inferred(bytes@),
{
    infer::get(bytes).map(|found| found.mime_type())
}

/// `std::str::from_utf8` accepts exactly the bytes that are UTF-8.
#[verifier::external_body]
pub(crate) fn is_utf8(bytes: &[u8]) -> (r: bool)
    ensures
        r == valid_utf8(bytes@),
{
    std::str::from_utf8(bytes).is_ok()
}

/// The MIME type of a file, from what was inferred of its first bytes: without that,
/// UTF-8 is plain text and all else is just bytes.
pub open spec fn mime_of(found: Option<Seq<char>>, bytes: Seq<u8>) -> Seq<char> {
    match found {
        Some(mime) => mime,
        None => if valid_utf8(bytes) {
            "text/plain"@
        } else {
            "application/octet-stream"@
        },
    }
}

/// The MIME type of a file, from what was inferred of its first bytes.
pub fn mime_or_default(found: Option<&'static str>, bytes: &[u8]) -> (r: &'static str)
    ensures
        r@ == mime_of(str_of(found), bytes@),
{
    match found {
        Some(mime) => mime,
        None => if is_utf8(bytes) {
            "text/plain"
        } else {
            "application/octet-stream"
        },
    }
}

/// The MIME type of a file that begins with `bytes`.
pub fn sniffed(bytes: &[u8]) -> (r: &'static str)
    ensures
        r@ == mime_of(inferred(bytes@), bytes@),
{
    mime_or_default(infer_mime(bytes), bytes)
}

/// What is to be done with what was read from a file.
pub enum Piece<E> {
    /// Tell the MIME type, and send the first bytes.
    First(&'static str, BytesMut),
    /// Tell that the file cannot be read, and stop.
    Unreadable(E),
    /// Send more bytes.
    Next(BytesMut),
    /// Send the error, and stop.
    Failed(E),
    /// Stop: the file has ended.
    End,
}

/// The reading of a file, piece by piece, through a buffer.
pub struct FileReader {
    /// The buffer.
    pub buffer: WriteBody<()>,
    /// Whether the first piece was read.
    pub begun: bool,
}

impl FileReader {
    /// The reading of a file from its start.
    pub fn new() -> (r: Self)
        ensures
            filled(r.buffer.buf) == Seq::<u8>::empty(),
            !r.begun,
    {
        FileReader { buffer: WriteBody::new(()), begun: false }
    }

    /// How many bytes are to be read at most for the next piece.
    pub fn room(&mut self) -> (r: usize)
        ensures
            final(self).begun == old(self).begun,
            r == filled(final(self).buffer.buf).len(),
            r == room_in(filled(old(self).buffer.buf).len() as int),
    {
        self.buffer.make_room()
    }

    /// Takes what was read. The first piece is sent even if it is empty, after the MIME
    /// type that it shows; later no bytes end the file.
    pub fn read<E>(&mut self, read: Result<Vec<u8>, E>) -> (r: Piece<E>)
        requires
            read matches Ok(bytes) ==> bytes@.len() <= filled(old(self).buffer.buf).len(),
        ensures
            final(self).begun,
            match read {
                Ok(bytes) => filled(final(self).buffer.buf).len() == filled(
                    old(self).buffer.buf,
                ).len() - bytes@.len() && if !old(self).begun {
                    r matches Piece::First(mime, piece) && mime@ == mime_of(
                        inferred(bytes@),
                        bytes@,
                    ) && filled(piece) == bytes@
                } else if bytes@.len() > 0 {
                    r matches Piece::Next(piece) && filled(piece) == bytes@
                } else {
                    r == Piece::<E>::End
                },
                Err(error) => final(self).buffer == old(self).buffer && r == if old(self).begun {
                    Piece::Failed(error)
                } else {
                    Piece::Unreadable(error)
                },
            },
    {
        let begun = self.begun;
        self.begun = true;
        match read {
            Ok(bytes) => match self.buffer.frame(bytes.as_slice()) {
                Some(piece) => if begun {
                    Piece::Next(piece)
                } else {
                    Piece::First(sniffed(bytes.as_slice()), piece)
                },
                None => if begun {
                    Piece::End
                } else {
                    assert(bytes@ =~= Seq::empty());
                    Piece::First(sniffed(bytes.as_slice()), BytesMut::new())
                },
            },
            Err(error) => if begun {
                Piece::Failed(error)
            } else {
                Piece::Unreadable(error)
            },
        }
    }
}

/// A body that is read from a file while it is sent.
pub struct ReadFileBody<C> {
    /// Where the bytes of the file come from.
    pub reader: C,
    /// The MIME type of the file.
    pub mime: &'static str,
    /// What was read from the file and not sent yet.
    pub buf: BytesMut,
    /// The number of bytes of the file that were not sent yet.
    pub left: u64,
}

impl<C> ResponseBody for ReadFileBody<C> {
    open spec fn mime(&self) -> Seq<char> {
        self.mime@
    }

    open spec fn size(&self) -> Option<u64> {
        Some(self.left)
    }

    fn content_type(&self) -> (r: Cow<'static, str>) {
        Cow::Borrowed(self.mime)
    }

    fn length(&self) -> (r: Option<u64>) {
        Some(self.left)
    }
}

/// What came from the reader of a file.
pub enum Received<E> {
    /// The next bytes.
    Chunk(BytesMut),
    /// Reading failed.
    Failed(E),
    /// The file has ended.
    Closed,
    /// Nothing yet.
    Pending,
}

/// Where a read of the body stands.
pub enum Polled<E> {
    /// The reader of the file is to be asked for more.
    Receive,
    /// The read is done.
    Ready,
    /// The read has failed.
    Failed(E),
    /// The read waits for the reader of the file.
    Pending,
}

impl<C> ReadFileBody<C> {
    /// A body of which nothing was sent yet.
    pub fn new(reader: C, mime: &'static str, len: u64) -> (r: Self)
        ensures
            r.reader == reader,
            r.mime == mime,
            filled(r.buf) == Seq::<u8>::empty(),
            r.left == len,
    {
        ReadFileBody { reader, mime, buf: BytesMut::new(), left: len }
    }

    /// Moves bytes from the buffer to `out`, as many as there are and as fit into
    /// `room` in all. The read is done once the room is used up.
    pub fn fill<E>(&mut self, out: &mut Vec<u8>, room: usize) -> (r: Polled<E>)
        requires
            old(out)@.len() <= room,
        ensures
            ({
                let n = least(room - old(out)@.len(), filled(old(self).buf).len() as int);
                &&& final(out)@ == old(out)@ + filled(old(self).buf).take(n)
                &&& filled(final(self).buf) == filled(old(self).buf).skip(n)
                &&& final(self).left == (old(self).left - n) % 0x1_0000_0000_0000_0000
                &&& final(self).mime == old(self).mime
                &&& final(self).reader == old(self).reader
                &&& r == if final(out)@.len() == room {
                    Polled::<E>::Ready
                } else {
                    Polled::<E>::Receive
                }
            }),
    {
        let free: usize = room - out.len();
        let n: usize = if self.buf.len() <= free {
            self.buf.len()
        } else {
            free
        };
        let taken = self.buf.split_to(n);
        let mut bytes = vstd::slice::slice_to_vec(buffers::slice_of_mut(&taken));
        out.append(&mut bytes);
        self.left = self.left.wrapping_sub(n as u64);
        if out.len() == room {
            Polled::Ready
        } else {
            Polled::Receive
        }
    }

    /// Takes what came from the reader of the file. The read goes on with a chunk; it
    /// is done when the file has ended, and also when nothing came yet but something
    /// was read before.
    pub fn receive<E>(&mut self, received: Received<E>, has_written: bool) -> (r: Polled<E>)
        ensures
            final(self).left == old(self).left,
            final(self).mime == old(self).mime,
            final(self).reader == old(self).reader,
            match received {
                Received::Chunk(chunk) => r == Polled::<E>::Receive && final(self).buf == chunk,
                Received::Failed(error) => r == Polled::<E>::Failed(error) && final(self).buf
                    == old(self).buf,
                Received::Closed => r == Polled::<E>::Ready && final(self).buf == old(self).buf,
                Received::Pending => final(self).buf == old(self).buf && r == if has_written {
                    Polled::<E>::Ready
                } else {
                    Polled::<E>::Pending
                },
            },
    {
        match received {
            Received::Chunk(chunk) => {
                self.buf = chunk;
                Polled::Receive
            },
            Received::Failed(error) => Polled::Failed(error),
            Received::Closed => Polled::Ready,
            Received::Pending => if has_written {
                Polled::Ready
            } else {
                Polled::Pending
            },
        }
    }
}

/// The decimal digits of a number.
pub open spec fn decimal(n: nat) -> Seq<char>
    decreases n,
{
    if n < 10 {
        seq![(n + '0' as nat) as char]
    } else {
        decimal(n / 10).push((n % 10 + '0' as nat) as char)
    }
}

fn decimal_text(n: u32) -> (r: String)
    ensures
        r@ == decimal(n as nat),
    decreases n,
{
    let digit: u8 = (n % 10) as u8;
    let mut r: String = if n < 10 {
        String::new()
    } else {
        decimal_text(n / 10)
    };
    r.push((digit + 48) as char);
    assert(r@ =~= decimal(n as nat));
    r
}

/// The name to try for a new file after `i` others.
pub open spec fn numbered(i: nat) -> Seq<char> {
    "newfile"@ + decimal(i)
}

/// The name to try for a new file after `i` others.
pub fn new_name(i: u32) -> (r: String)
    ensures
        r@ == numbered(i as nat),
{
    let mut name: String = "newfile".to_owned();
    name.append(decimal_text(i).as_str());
    name
}

/// How the search for the name of a new file goes on.
pub enum Naming {
    /// The new file has this name.
    Take(String),
    /// The name after this many others is tried next.
    Try(u32),
}

/// Goes on with the search for a name after the look whether the name after `i` others
/// is taken. Where the last number is taken, there is no name.
pub fn next_name(i: u32, taken: bool) -> (r: Option<Naming>)
    ensures
        match r {
            Some(Naming::Take(name)) => !taken && name@ == numbered(i as nat),
            Some(Naming::Try(next)) => taken && next == i + 1,
            None => taken && i == u32::MAX,
        },
{
    if !taken {
        return Some(Naming::Take(new_name(i)));
    }
    match i.checked_add(1) {
        Some(next) => Some(Naming::Try(next)),
        None => None,
    }
}

/// The number whose name a search from `i` on takes, in a folder in which the names of
/// the numbers with `taken` are taken.
pub open spec fn searched(taken: spec_fn(nat) -> bool, i: nat) -> Option<nat>
    decreases u32::MAX - i,
{
    if !taken(i) {
        Some(i)
    } else if i < u32::MAX {
        searched(taken, i + 1)
    } else {
        None
    }
}

/// The search takes the least number whose name is free, and finds one if there is one.
pub proof fn law_least_free_number_is_taken(taken: spec_fn(nat) -> bool, i: nat)
    requires
        i <= u32::MAX,
    ensures
        match searched(taken, i) {
            Some(n) => i <= n <= u32::MAX && !taken(n) && forall|k: nat|
                i <= k < n ==> #[trigger] taken(k),
            None => forall|k: nat| i <= k <= u32::MAX ==> #[trigger] taken(k),
        },
    decreases u32::MAX - i,
{
    if taken(i) && i < u32::MAX {
        law_least_free_number_is_taken(taken, i + 1);
    }
}

/// What is done with a chunk of a body that is written to a file.
pub enum Writing {
    /// The body is at its end: the file is written.
    Done,
    /// These bytes are appended, and the next chunk is read.
    Append(Bytes),
}

/// What is done with the next chunk of a body that is written to a file; an empty one
/// ends the body.
pub fn write_step(chunk: Bytes) -> (r: Writing)
    ensures
        r == if held(chunk).len() == 0 {
            Writing::Done
        } else {
            Writing::Append(chunk)
        },
{
    if chunk.is_empty() {
        Writing::Done
    } else {
        Writing::Append(chunk)
    }
}

/// What a file holds after chunks of a body were written to it.
pub open spec fn written(chunks: Seq<Bytes>) -> Seq<u8>
    decreases chunks.len(),
{
    if chunks.len() == 0 || held(chunks[0]).len() == 0 {
        Seq::empty()
    } else {
        held(chunks[0]) + written(chunks.drop_first())
    }
}

/// A file holds the chunks before the first empty one, one after the other, whatever
/// would come after it.
pub proof fn law_file_holds_the_chunks_of_the_body(chunks: Seq<Bytes>, n: int)
    requires
        0 <= n <= chunks.len(),
        forall|i: int| 0 <= i < n ==> held(#[trigger] chunks[i]).len() > 0,
        n < chunks.len() ==> held(chunks[n]).len() == 0,
    ensures
        written(chunks) == joined(chunks.take(n)),
    decreases n,
{
    if n > 0 {
        let rest = chunks.drop_first();
        assert forall|i: int| 0 <= i < n - 1 implies held(#[trigger] rest[i]).len() > 0 by {
            assert(rest[i] == chunks[i + 1]);
        }
        law_file_holds_the_chunks_of_the_body(rest, n - 1);
        assert(held(chunks[0]).len() > 0);
        assert(chunks.take(n).drop_first() =~= rest.take(n - 1));
        assert(chunks.take(n)[0] == chunks[0]);
    }
}

/// A file that was made.
pub struct NewFile {
    pub path: String,
}

impl Document for NewFile {
    open spec fn document(&self) -> Seq<char> {
        json::object_of("path"@, self.path@)
    }

    fn render(&self) -> (r: String) {
        json::render_entry("path", self.path.as_str())
    }
}

impl ResourceLocation for NewFile {
    open spec fn located_at(&self) -> Seq<char> {
        Self::base_path() + self.identifier()
    }

    open spec fn base_path() -> Seq<char> {
        ""@
    }

    open spec fn identifier(&self) -> Seq<char> {
        self.path@
    }

    fn location(&self) -> (r: String) {
        default_location(Self::base(), self.resource_id())
    }

    fn base() -> (r: &'static str) {
        ""
    }

    fn resource_id(&self) -> (r: Cow<'_, str>) {
        Cow::Borrowed(self.path.as_str())
    }
}

/// What the handlers of the tree respond with: a page, a file, a new file, that a file
/// was written, or an error.
pub type FileResponse<C> = Either<
    HtmlFile,
    Either<
        HttpResponse<ReadFileBody<C>>,
        Either<Json201<NewFile>, Either<Json<()>, std::io::Error>>,
    >,
>;

/// A path to a file or a folder.
pub trait Place {
    /// Where the bytes of the file come from.
    type Reader;
}

/// A node of the tree, with its path on disk and its path in the tree.
#[derive(Clone)]
pub enum FileNode<P> {
    /// A file or a folder that is there.
    Folder { absolute: P, relative: P },
    /// A file to be written.
    EditFile { absolute: P, relative: P },
}

/// What the handlers of the tree are named.
#[derive(Clone, Copy, Debug, PartialEq, Eq, Structural)]
pub enum FileLabel {
    /// Go from a folder to writing.
    Edit,
    /// Go to what is in a folder.
    Descend,
    /// Show a folder or a file.
    Show,
    /// Make a new file.
    Create,
    /// Write a file.
    Replace,
}

impl<P: Place> MakeRoute for FileNode<P> {
    type Body = ();

    type Label = FileLabel;

    type Response = FileResponse<P::Reader>;

    open spec fn declared(&self) -> Seq<DeclarationView<FileLabel>> {
        match self {
            FileNode::Folder { .. } => seq![
                (DeclarationView::Middleware {
                    guard: GuardView::for_methods(
                        MethodsView::Only(seq![MethodView::Post, MethodView::Put]),
                    ),
                    stage: Stage::Plain,
                    label: FileLabel::Edit,
                }),
                (DeclarationView::RouteRecursive {
                    holds: true,
                    segments: SegmentsView::Any,
                    condition: None,
                    label: FileLabel::Descend,
                }),
                (DeclarationView::Leaf {
                    methods: MethodsView::Only(seq![MethodView::Get]),
                    condition: None,
                    label: FileLabel::Show,
                }),
            ],
            FileNode::EditFile { .. } => seq![
                (DeclarationView::RouteRecursive {
                    holds: true,
                    segments: SegmentsView::Any,
                    condition: None,
                    label: FileLabel::Descend,
                }),
                (DeclarationView::Leaf {
                    methods: MethodsView::Only(seq![MethodView::Post]),
                    condition: None,
                    label: FileLabel::Create,
                }),
                (DeclarationView::Leaf {
                    methods: MethodsView::Only(seq![MethodView::Put]),
                    condition: None,
                    label: FileLabel::Replace,
                }),
            ],
        }
    }

    open spec fn on_request(&self, condition: FileLabel, request: RequestView<()>) -> bool {
        false
    }

    open spec fn on_route(
        &self,
        condition: FileLabel,
        request: RequestView<()>,
        segment: StringId,
    ) -> bool {
        false
    }

    open spec fn on_segment(&self, condition: FileLabel, segment: StringId) -> bool {
        false
    }

    open spec fn on_method(&self, condition: FileLabel, method: MethodView) -> bool {
        false
    }

    fn register<R: Router<FileLabel>>(&self, router: &mut R) {
        let ghost before = router.listed();
        match self {
            FileNode::Folder { .. } => {
                router.middleware_map(
                    Guard::for_methods(Methods::two(Method::Post, Method::Put)),
                    FileLabel::Edit,
                );
                router.route_recursive(FileLabel::Descend);
                router.get(FileLabel::Show);
            },
            FileNode::EditFile { .. } => {
                router.route_recursive(FileLabel::Descend);
                router.post(FileLabel::Create);
                router.put(FileLabel::Replace);
            },
        }
        assert(router.listed() =~= before + self.declared());
    }

    fn test_request(&self, condition: FileLabel, request: &Request<()>) -> (r: bool) {
        false
    }

    fn test_route(
        &self,
        condition: FileLabel,
        request: &Request<()>,
        segment: &StringId,
    ) -> (r: bool) {
        false
    }

    fn test_segment(&self, condition: FileLabel, segment: &StringId) -> (r: bool) {
        false
    }

    fn test_method(&self, condition: FileLabel, method: &Method) -> (r: bool) {
        false
    }

    fn test_any_method(&self, condition: FileLabel, methods: &Methods) -> (r: bool) {
        false
    }
}

/// Goes from a folder to writing in its place.
pub fn edit<P: Place>(node: FileNode<P>) -> (r: Node<FileNode<P>>)
    ensures
        r == Node::Own(
            match node {
                FileNode::Folder { absolute, relative } => FileNode::EditFile { absolute, relative },
                FileNode::EditFile { absolute, relative } => FileNode::EditFile {
                    absolute,
                    relative,
                },
            },
        ),
{
    match node {
        FileNode::Folder { absolute, relative } => Node::Own(
            FileNode::EditFile { absolute, relative },
        ),
        FileNode::EditFile { absolute, relative } => Node::Own(
            FileNode::EditFile { absolute, relative },
        ),
    }
}

/// Goes to what is at the given paths, below `node`: for reading it has to exist, for
/// writing it need not.
pub fn descend<P: Place>(node: FileNode<P>, absolute: P, relative: P, exists: bool) -> (r: Node<
    FileNode<P>,
>)
    ensures
        r == Node::Optional(
            match node {
                FileNode::Folder { .. } => if exists {
                    Some(Box::new(Node::Own(FileNode::Folder { absolute, relative })))
                } else {
                    None
                },
                FileNode::EditFile { .. } => Some(
                    Box::new(Node::Own(FileNode::EditFile { absolute, relative })),
                ),
            },
        ),
{
    Node::Optional(
        match node {
            FileNode::Folder { .. } => if exists {
                Some(Box::new(Node::Own(FileNode::Folder { absolute, relative })))
            } else {
                None
            },
            FileNode::EditFile { .. } => Some(
                Box::new(Node::Own(FileNode::EditFile { absolute, relative })),
            ),
        },
    )
}

/// A folder is left for writing by `POST` and `PUT`; else its segments are followed to
/// the end, where `GET` shows it and other methods are not allowed.
pub proof fn law_folder_is_browsed<P: Place>(node: FileNode<P>, request: RequestView<()>)
    requires
        node is Folder,
    ensures
        decided(Node::Own(node), request) == if request.method == MethodView::Post || request.method
            == MethodView::Put {
            ActionView::Middleware { label: FileLabel::Edit, post: false, node, request }
        } else if request.path.len() > 0 {
            ActionView::Route {
                label: FileLabel::Descend,
                terminal: false,
                node,
                segment: request.path[0],
                request: RequestView { path: request.path.drop_first(), ..request },
            }
        } else if request.method == MethodView::Get {
            ActionView::Leaf { label: FileLabel::Show, node, request }
        } else {
            ActionView::Reply(not_allowed())
        },
{
    let place = Node::Own(node);
    let entries = place.entries();
    let edits = seq![MethodView::Post, MethodView::Put];
    let gets = seq![MethodView::Get];
    assert(edits[0] == MethodView::Post && edits[1] == MethodView::Put && gets[0]
        == MethodView::Get);
    let claims = |entry: EntryView<FileLabel>| claims_request(place, entry, request);
    if request.method == MethodView::Post || request.method == MethodView::Put {
        assert(claims(entries[0]));
        lemma_first_is(entries, claims, 0);
    } else {
        assert(!claims(entries[0]));
        lemma_first_is(entries, claims, 3);
        if request.path.len() > 0 {
            let passed = RequestView { path: request.path.drop_first(), ..request };
            lemma_first_is(
                entries,
                |entry: EntryView<FileLabel>|
                    claims_segment(place, entry, passed, request.path[0]),
                1,
            );
        } else {
            let get = |entry: EntryView<FileLabel>| claims_method(place, entry, MethodView::Get);
            assert(get(entries[2]));
            lemma_first_is(entries, get, 2);
            assert(found_leaf(place, MethodView::Get) is Some);
            if request.method != MethodView::Get {
                let claims = |entry: EntryView<FileLabel>| claims_method(place, entry, request.method);
                assert(!claims(entries[2]));
                lemma_first_is(entries, claims, 3);
            }
        }
    }
}

/// When writing, the segments are followed to the end, where `POST` makes a file, `PUT`
/// writes one and other methods are not allowed.
pub proof fn law_file_is_written<P: Place>(node: FileNode<P>, request: RequestView<()>)
    requires
        node is EditFile,
    ensures
        decided(Node::Own(node), request) == if request.path.len() > 0 {
            ActionView::Route {
                label: FileLabel::Descend,
                terminal: false,
                node,
                segment: request.path[0],
                request: RequestView { path: request.path.drop_first(), ..request },
            }
        } else {
            match request.method {
                MethodView::Post => ActionView::Leaf { label: FileLabel::Create, node, request },
                MethodView::Put => ActionView::Leaf { label: FileLabel::Replace, node, request },
                _ => ActionView::Reply(not_allowed()),
            }
        },
{
    let place = Node::Own(node);
    let entries = place.entries();
    let posts = seq![MethodView::Post];
    let puts = seq![MethodView::Put];
    assert(posts[0] == MethodView::Post && puts[0] == MethodView::Put);
    lemma_first_is(entries, |entry: EntryView<FileLabel>| claims_request(place, entry, request), 3);
    if request.path.len() > 0 {
        let passed = RequestView { path: request.path.drop_first(), ..request };
        lemma_first_is(
            entries,
            |entry: EntryView<FileLabel>| claims_segment(place, entry, passed, request.path[0]),
            0,
        );
    } else {
        let post = |entry: EntryView<FileLabel>| claims_method(place, entry, MethodView::Post);
        assert(post(entries[1]));
        lemma_first_is(entries, post, 1);
        assert(found_leaf(place, MethodView::Post) is Some);
        let claims = |entry: EntryView<FileLabel>| claims_method(place, entry, request.method);
        assert(claims(entries[1]) == (request.method == MethodView::Post));
        assert(claims(entries[2]) == (request.method == MethodView::Put));
        lemma_first_is(
            entries,
            claims,
            match request.method {
                MethodView::Post => 1,
                MethodView::Put => 2,
                _ => 3int,
            },
        );
    }
}

/// Chunks one after the other hold their bytes one after the other.
pub proof fn law_chunks_hold_their_bytes_in_order(first: Seq<Bytes>, second: Seq<Bytes>, chunk: Bytes)
    ensures
        joined(first + second) == joined(first) + joined(second),
        joined(seq![chunk]) == held(chunk),
        joined(Seq::<Bytes>::empty()) == Seq::<u8>::empty(),
    decreases first.len(),
{
    assert(seq![chunk].drop_first() =~= Seq::empty());
    assert(joined(Seq::<Bytes>::empty()) == Seq::<u8>::empty());
    assert(joined(seq![chunk].drop_first()) == Seq::<u8>::empty());
    assert(joined(seq![chunk]) =~= held(chunk));
    if first.len() == 0 {
        assert(first + second =~= second);
        assert(joined(first) + joined(second) =~= joined(second));
    } else {
        law_chunks_hold_their_bytes_in_order(first.drop_first(), second, chunk);
        assert((first + second).drop_first() =~= first.drop_first() + second);
        assert((first + second)[0] == first[0]);
        assert(joined(first + second) =~= joined(first) + joined(second));
    }
}

/// A link leads to its address and shows its text; the items of a list stand in the order
/// of the entries, each with its link.
pub proof fn law_page_lists_the_entries_in_order(
    entries: Seq<(String, String)>,
    entry: (String, String),
    link: Seq<char>,
    text: Seq<char>,
)
    ensures
        anchor(link, text) == "<a href=\""@ + link + "\">"@ + text + "</a>"@,
        items(entries.push(entry)) == items(entries) + encode_utf8("<li>"@) + encode_utf8(
            "<a href=\""@ + entry.0@ + "\">"@ + entry.1@ + "</a>"@,
        ) + encode_utf8("</li>"@),
        items(Seq::<(String, String)>::empty()) == Seq::<u8>::empty(),
{
    assert(entries.push(entry).drop_last() =~= entries);
    assert(entries.push(entry).last() == entry);
}

/// A page is sent as `200` with the markup that was appended to it, as HTML, and without
/// headers.
pub proof fn law_page_is_sent_as_its_markup(page: HtmlFile, body: Chunks)
    ensures
        page.status() == StatusCode(200),
        page.headers() == Map::<Seq<char>, FieldView>::empty(),
        page@ == joined(page.0@),
        body.rest() == joined(body.0@),
        page.has_body(body) ==> body.rest() == page@,
        page.has_body(body) <==> body.0 == page.0,
        body.mime() == "text/html"@,
        body.rest().len() <= u64::MAX ==> body.size() == Some(body.rest().len() as u64),
{
}

/// The type of a file is the one that its first bytes show; without one, text is plain
/// text and all else is just bytes.
pub proof fn law_type_is_inferred_or_plain(mime: Seq<char>, bytes: Seq<u8>)
    ensures
        mime_of(Some(mime), bytes) == mime,
        valid_utf8(bytes) ==> mime_of(None, bytes) == "text/plain"@,
        !valid_utf8(bytes) ==> mime_of(None, bytes) == "application/octet-stream"@,
{
}

/// A file is sent with its type and the number of bytes that are left of it.
pub proof fn law_file_is_sent_with_its_type_and_length<C>(body: ReadFileBody<C>)
    ensures
        ResponseBody::mime(&body) == body.mime@,
        body.size() == Some(body.left),
{
}

/// A new file is told by its path, which is also where it is found.
pub proof fn law_new_file_is_told_by_its_path(file: NewFile)
    ensures
        file.document() == json::object_of("path"@, file.path@),
        file.located_at() == file.path@,
        file.identifier() == file.path@,
{
    reveal_strlit("");
    assert(""@ + file.path@ =~= file.path@);
}

/// A number is written digit by digit, the last one for what is left by a division by ten.
pub proof fn law_number_is_written_digit_by_digit(n: nat, digit: nat)
    requires
        digit < 10,
    ensures
        decimal(digit) == seq![(digit + 48) as char],
        n > 0 ==> decimal((10 * n + digit) as nat) == decimal(n).push((digit + 48) as char),
{
    assert((10 * n + digit) / 10 == n && (10 * n + digit) % 10 == digit);
}

proof fn lemma_decimal_len(n: nat)
    ensures
        decimal(n).len() >= 1,
        n >= 10 ==> decimal(n).len() >= 2,
    decreases n,
{
    if n >= 10 {
        lemma_decimal_len(n / 10);
    }
}

proof fn lemma_decimal_tells_numbers_apart(a: nat, b: nat)
    requires
        decimal(a) == decimal(b),
    ensures
        a == b,
    decreases a,
{
    lemma_decimal_len(a);
    lemma_decimal_len(b);
    let last_of_a = (a % 10 + '0' as nat) as char;
    let last_of_b = (b % 10 + '0' as nat) as char;
    assert(decimal(a).last() == last_of_a);
    assert(decimal(b).last() == last_of_b);
    assert(last_of_a as nat == a % 10 + 48);
    assert(last_of_b as nat == b % 10 + 48);
    assert(a % 10 == b % 10);
    if a >= 10 {
        let low = (a % 10 + '0' as nat) as char;
        assert(decimal(a / 10).push(low).drop_last() =~= decimal(a / 10));
        assert(decimal(b / 10).push(low).drop_last() =~= decimal(b / 10));
        lemma_decimal_tells_numbers_apart(a / 10, b / 10);
    }
}

/// The names of new files begin with `newfile` and differ from number to number.
pub proof fn law_new_names_differ(a: nat, b: nat)
    ensures
        numbered(a) == "newfile"@ + decimal(a),
        numbered(a) == numbered(b) ==> a == b,
{
    if numbered(a) == numbered(b) {
        let n = "newfile"@.len() as int;
        assert(numbered(a).skip(n) =~= decimal(a));
        assert(numbered(b).skip(n) =~= decimal(b));
        lemma_decimal_tells_numbers_apart(a, b);
    }
}

} // verus!
