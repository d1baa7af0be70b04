//! Text as sequences of characters: splitting, trimming and lowercasing.
use vstd::prelude::*;
#[allow(unused_imports)]
use vstd::std_specs::iter::IteratorSpec;

verus! {

/// `String::push` appends the character to the end of the string.
pub assume_specification[ String::push ](s: &mut String, c: char)
    ensures
        final(s)@ == old(s)@.push(c),
;

/// The characters with the Unicode property `White_Space`.
pub open spec fn white_space(c: char) -> bool {
    ||| 0x9 <= c as u32 <= 0xd
    ||| c as u32 == 0x20
    ||| c as u32 == 0x85
    ||| c as u32 == 0xa0
    ||| c as u32 == 0x1680
    ||| 0x2000 <= c as u32 <= 0x200a
    ||| c as u32 == 0x2028
    ||| c as u32 == 0x2029
    ||| c as u32 == 0x202f
    ||| c as u32 == 0x205f
    ||| c as u32 == 0x3000
}

/// `char::is_whitespace` tells whether the character has the Unicode property
/// `White_Space`.
pub assume_specification[ char::is_whitespace ](c: char) -> (r: bool)
    ensures
        r == white_space(c),
;

/// The index of the first `c` in `s`, or the length of `s` if there is none.
pub open spec fn find(s: Seq<char>, c: char) -> int
    decreases s.len(),
{
    if s.len() == 0 || s[0] == c {
        0
    } else {
        1 + find(s.drop_first(), c)
    }
}

/// `find` gives the first occurrence: before it there is none.
pub proof fn lemma_find(s: Seq<char>, c: char)
    ensures
        0 <= find(s, c) <= s.len(),
        forall|i: int| 0 <= i < find(s, c) ==> s[i] != c,
        find(s, c) < s.len() ==> s[find(s, c)] == c,
    decreases s.len(),
{
    if s.len() > 0 && s[0] != c {
        lemma_find(s.drop_first(), c);
        assert forall|i: int| 0 <= i < find(s, c) implies s[i] != c by {
            if i > 0 {
                assert(s[i] == s.drop_first()[i - 1]);
            }
        }
    }
}

/// `find` is determined by its two properties.
proof fn lemma_find_is(s: Seq<char>, c: char, n: int)
    requires
        0 <= n <= s.len(),
        forall|i: int| 0 <= i < n ==> s[i] != c,
        n < s.len() ==> s[n] == c,
    ensures
        find(s, c) == n,
{
    lemma_find(s, c);
}

/// The text cut at its first `sep`, which is dropped.
pub open spec fn cut(s: Seq<char>, sep: char) -> Option<(Seq<char>, Seq<char>)> {
    let i = find(s, sep);
    if i < s.len() {
        Some((s.take(i), s.skip(i + 1)))
    } else {
        None
    }
}

/// A text is cut into what stands before its first separator and what stands behind it;
/// a text without a separator is not cut.
pub proof fn law_cut_parts_the_text(s: Seq<char>, sep: char)
    ensures
        cut(s, sep) is Some <==> s.contains(sep),
        cut(s, sep) matches Some((before, after)) ==> s == before + seq![sep] + after
            && !before.contains(sep),
{
    lemma_find(s, sep);
    let i = find(s, sep);
    if i < s.len() {
        assert(s[i] == sep);
        assert(s =~= s.take(i) + seq![sep] + s.skip(i + 1));
    } else {
        assert forall|j: int| 0 <= j < s.len() implies s[j] != sep by {}
    }
}

/// Two texts with a separator between them are cut there, if the first holds none.
pub proof fn law_joined_texts_are_cut(before: Seq<char>, sep: char, after: Seq<char>)
    requires
        !before.contains(sep),
    ensures
        cut(before + seq![sep] + after, sep) == Some((before, after)),
{
    let s = before + seq![sep] + after;
    assert forall|i: int| 0 <= i < before.len() implies s[i] != sep by {
        assert(before.contains(before[i]));
    }
    assert(s[before.len() as int] == sep);
    lemma_find_is(s, sep, before.len() as int);
    assert(s.take(before.len() as int) =~= before);
    assert(s.skip(before.len() as int + 1) =~= after);
}

/// The pair of texts that an optional pair of strings shows.
pub open spec fn pair_view(pair: Option<(String, String)>) -> Option<(Seq<char>, Seq<char>)> {
    match pair {
        Some((a, b)) => Some((a@, b@)),
        None => None,
    }
}

/// Cuts `s` at its first `sep`.
pub fn split_once(s: &str, sep: char) -> (r: Option<(String, String)>)
    ensures
        pair_view(r) == cut(s@, sep),
        match r {
            Some((before, after)) => s@ == before@ + seq![sep] + after@ && !before@.contains(sep),
            None => !s@.contains(sep),
        },
{
    proof {
        law_cut_parts_the_text(s@, sep);
    }
    let mut n: usize = 0;
    let total: usize = s.unicode_len();
    for c in it: s.chars()
        invariant
            it.seq() == s@,
            n == it.index(),
            total == s@.len(),
            cut(s@, sep) is Some <==> s@.contains(sep),
            cut(s@, sep) matches Some((before, after)) ==> s@ == before + seq![sep] + after
                && !before.contains(sep),
            forall|i: int| 0 <= i < n ==> s@[i] != sep,
    {
        if c == sep {
            proof {
                lemma_find_is(s@, sep, n as int);
            }
            let head = s.substring_char(0, n).to_owned();
            let tail = s.substring_char(n + 1, total).to_owned();
            return Some((head, tail));
        }
        n = n + 1;
    }
    proof {
        lemma_find_is(s@, sep, s@.len() as int);
    }
    None
}

/// The pieces of `s` between the occurrences of `sep`: one more than there are
/// occurrences.
pub open spec fn pieces(s: Seq<char>, sep: char) -> Seq<Seq<char>>
    decreases s.len(),
{
    if s.len() == 0 {
        seq![Seq::empty()]
    } else {
        let rest = pieces(s.drop_first(), sep);
        if s[0] == sep {
            seq![Seq::empty()] + rest
        } else {
            seq![seq![s[0]] + rest[0]] + rest.drop_first()
        }
    }
}

/// The texts of a sequence of strings.
pub open spec fn texts(s: Seq<String>) -> Seq<Seq<char>> {
    s.map_values(|x: String| x@)
}

/// The pieces that `cur` followed by `s` has, when `cur` holds no separator.
spec fn pieces_after(cur: Seq<char>, s: Seq<char>, sep: char) -> Seq<Seq<char>> {
    let rest = pieces(s, sep);
    seq![cur + rest[0]] + rest.drop_first()
}

proof fn lemma_pieces_nonempty(s: Seq<char>, sep: char)
    ensures
        pieces(s, sep).len() > 0,
    decreases s.len(),
{
    if s.len() > 0 {
        lemma_pieces_nonempty(s.drop_first(), sep);
    }
}

/// Splits `s` at every `sep`.
pub fn split(s: &str, sep: char) -> (r: Vec<String>)
    ensures
        texts(r@) == pieces(s@, sep),
        r@.len() == pieces(s@, sep).len(),
        forall|i: int| 0 <= i < r@.len() ==> (#[trigger] r@[i])@ == pieces(s@, sep)[i],
{
    let mut done: Vec<String> = Vec::new();
    let mut cur: String = String::new();
    proof {
        assert(s@.skip(0) =~= s@);
        lemma_pieces_nonempty(s@, sep);
        assert(pieces(s@, sep) =~= texts(done@) + pieces_after(cur@, s@.skip(0), sep));
    }
    for c in it: s.chars()
        invariant
            it.seq() == s@,
            pieces(s@, sep) == texts(done@) + pieces_after(cur@, s@.skip(it.index()), sep),
    {
        let ghost i = it.index();
        let ghost before = texts(done@);
        let ghost held = cur@;
        proof {
            assert(s@.skip(i).drop_first() =~= s@.skip(i + 1));
            assert(s@.skip(i)[0] == c);
            lemma_pieces_nonempty(s@.skip(i), sep);
            lemma_pieces_nonempty(s@.skip(i + 1), sep);
        }
        if c == sep {
            done.push(cur);
            cur = String::new();
            proof {
                assert(texts(done@) =~= before.push(held));
                assert(before + pieces_after(held, s@.skip(i), sep) =~= texts(done@)
                    + pieces_after(cur@, s@.skip(i + 1), sep));
            }
        } else {
            cur.push(c);
            proof {
                let rest = pieces(s@.skip(i + 1), sep);
                assert(held + (seq![c] + rest[0]) =~= held.push(c) + rest[0]);
                assert(before + pieces_after(held, s@.skip(i), sep) =~= texts(done@)
                    + pieces_after(cur@, s@.skip(i + 1), sep));
            }
        }
    }
    let ghost before = texts(done@);
    let ghost held = cur@;
    done.push(cur);
    proof {
        assert(s@.skip(s@.len() as int) =~= Seq::empty());
        assert(texts(done@) =~= before.push(held));
        assert(before + pieces_after(held, Seq::empty(), sep) =~= texts(done@));
        assert forall|i: int| 0 <= i < done@.len() implies (#[trigger] done@[i])@ == pieces(
            s@,
            sep,
        )[i] by {
            assert(texts(done@)[i] == done@[i]@);
        }
    }
    done
}

/// The pieces of a text hold no separator.
pub proof fn law_pieces_hold_no_separator(s: Seq<char>, sep: char)
    ensures
        pieces(s, sep).len() > 0,
        forall|i: int| 0 <= i < pieces(s, sep).len() ==> !(#[trigger] pieces(s, sep)[i]).contains(sep),
    decreases s.len(),
{
    if s.len() > 0 {
        law_pieces_hold_no_separator(s.drop_first(), sep);
        let rest = pieces(s.drop_first(), sep);
        assert forall|i: int| 0 <= i < pieces(s, sep).len() implies !(
        #[trigger] pieces(s, sep)[i]).contains(sep) by {
            if s[0] != sep && i == 0 {
                let piece = seq![s[0]] + rest[0];
                assert forall|j: int| 0 <= j < piece.len() implies piece[j] != sep by {
                    if j > 0 {
                        assert(piece[j] == rest[0][j - 1]);
                    }
                }
            } else if s[0] != sep {
                assert(pieces(s, sep)[i] == rest[i]);
            } else if i > 0 {
                assert(pieces(s, sep)[i] == rest[i - 1]);
            }
        }
    }
}

/// The pieces of two texts with a separator between them are those of the first
/// followed by those of the second.
pub proof fn lemma_pieces_joined(first: Seq<char>, second: Seq<char>, sep: char)
    ensures
        pieces(first + seq![sep] + second, sep) == pieces(first, sep) + pieces(second, sep),
    decreases first.len(),
{
    let whole = first + seq![sep] + second;
    lemma_pieces_nonempty(first, sep);
    if first.len() == 0 {
        assert(whole.drop_first() =~= second);
    } else {
        lemma_pieces_joined(first.drop_first(), second, sep);
        lemma_pieces_nonempty(first.drop_first(), sep);
        assert(whole.drop_first() =~= first.drop_first() + seq![sep] + second);
        assert(whole[0] == first[0]);
    }
    assert(pieces(whole, sep) =~= pieces(first, sep) + pieces(second, sep));
}

/// A text without the separator is its own only piece.
pub proof fn lemma_pieces_whole(s: Seq<char>, sep: char)
    requires
        !s.contains(sep),
    ensures
        pieces(s, sep) == seq![s],
    decreases s.len(),
{
    if s.len() == 0 {
        assert(s =~= Seq::empty());
    } else {
        assert(s.contains(s[0]));
        assert forall|c: char| s.drop_first().contains(c) implies s.contains(c) by {
            let i = choose|i: int| 0 <= i < s.drop_first().len() && s.drop_first()[i] == c;
            assert(s[i + 1] == c);
        }
        lemma_pieces_whole(s.drop_first(), sep);
        assert(seq![s[0]] + s.drop_first() =~= s);
        assert(pieces(s, sep) =~= seq![s]);
    }
}

/// What is left of `s` without its leading white space.
pub open spec fn trim_start(s: Seq<char>) -> Seq<char>
    decreases s.len(),
{
    if s.len() > 0 && white_space(s[0]) {
        trim_start(s.drop_first())
    } else {
        s
    }
}

/// What is left of `s` without its trailing white space.
pub open spec fn trim_end(s: Seq<char>) -> Seq<char>
    decreases s.len(),
{
    if s.len() > 0 && white_space(s.last()) {
        trim_end(s.drop_last())
    } else {
        s
    }
}

/// What is left of `s` without its leading and trailing white space.
pub open spec fn trimmed(s: Seq<char>) -> Seq<char> {
    trim_end(trim_start(s))
}

proof fn lemma_trim_start_is(s: Seq<char>, n: int)
    requires
        0 <= n <= s.len(),
        forall|i: int| 0 <= i < n ==> white_space(s[i]),
        n < s.len() ==> !white_space(s[n]),
    ensures
        trim_start(s) == s.skip(n),
    decreases n,
{
    if n > 0 {
        assert forall|i: int| 0 <= i < n - 1 implies white_space(s.drop_first()[i]) by {
            assert(s.drop_first()[i] == s[i + 1]);
        }
        lemma_trim_start_is(s.drop_first(), n - 1);
        assert(s.drop_first().skip(n - 1) =~= s.skip(n));
    } else {
        assert(s.skip(0) =~= s);
    }
}

proof fn lemma_trim_end_is(s: Seq<char>, n: int)
    requires
        0 <= n <= s.len(),
        forall|i: int| n <= i < s.len() ==> white_space(s[i]),
        n > 0 ==> !white_space(s[n - 1]),
    ensures
        trim_end(s) == s.take(n),
    decreases s.len() - n,
{
    if n < s.len() {
        assert(white_space(s[s.len() - 1]));
        lemma_trim_end_is(s.drop_last(), n);
        assert(s.drop_last().take(n) =~= s.take(n));
    } else {
        assert(s.take(n) =~= s);
    }
}

/// Drops the white space at both ends of `s`.
pub fn trim(s: &str) -> (r: &str)
    ensures
        r@ == trimmed(s@),
{
    let mut n: usize = 0;
    let mut start: usize = 0;
    let mut end: usize = 0;
    let total: usize = s.unicode_len();
    for c in it: s.chars()
        invariant
            it.seq() == s@,
            total == s@.len(),
            n == it.index(),
            start <= end <= n || (end == 0 && start == n),
            start <= n,
            forall|i: int| 0 <= i < start ==> white_space(s@[i]),
            forall|i: int| end <= i < n ==> white_space(s@[i]),
            start < n ==> !white_space(s@[start as int]) && end > start && !white_space(
                s@[end - 1],
            ),
            start == n ==> end == 0,
    {
        if c.is_whitespace() {
            if start == n {
                start = n + 1;
            }
        } else {
            end = n + 1;
        }
        n = n + 1;
    }
    proof {
        lemma_trim_start_is(s@, start as int);
        let kept = s@.skip(start as int);
        if start < total {
            assert(kept[end - start - 1] == s@[end - 1]);
            assert forall|i: int| end - start <= i < kept.len() implies white_space(kept[i]) by {
                assert(kept[i] == s@[start + i]);
            }
            lemma_trim_end_is(kept, end - start);
            assert(kept.take(end - start) =~= s@.subrange(start as int, end as int));
        } else {
            assert(kept =~= Seq::empty());
            assert(s@.subrange(0, 0) =~= Seq::empty());
        }
    }
    if start < total {
        s.substring_char(start, end)
    } else {
        s.substring_char(0, 0)
    }
}

proof fn lemma_trim_start_takes(s: Seq<char>) -> (n: int)
    ensures
        0 <= n <= s.len(),
        trim_start(s) == s.skip(n),
        forall|i: int| 0 <= i < n ==> white_space(#[trigger] s[i]),
        n < s.len() ==> !white_space(s[n]),
    decreases s.len(),
{
    if s.len() > 0 && white_space(s[0]) {
        let n = lemma_trim_start_takes(s.drop_first());
        assert(s.drop_first().skip(n) =~= s.skip(n + 1));
        assert forall|i: int| 0 <= i < n + 1 implies white_space(#[trigger] s[i]) by {
            if i > 0 {
                assert(s[i] == s.drop_first()[i - 1]);
            }
        }
        n + 1
    } else {
        assert(s.skip(0) =~= s);
        0
    }
}

proof fn lemma_trim_end_takes(s: Seq<char>) -> (n: int)
    ensures
        0 <= n <= s.len(),
        trim_end(s) == s.take(n),
        forall|i: int| n <= i < s.len() ==> white_space(#[trigger] s[i]),
        n > 0 ==> !white_space(s[n - 1]),
    decreases s.len(),
{
    if s.len() > 0 && white_space(s.last()) {
        let n = lemma_trim_end_takes(s.drop_last());
        assert(s.drop_last().take(n) =~= s.take(n));
        assert forall|i: int| n <= i < s.len() implies white_space(#[trigger] s[i]) by {
            if i < s.len() - 1 {
                assert(s[i] == s.drop_last()[i]);
            }
        }
        n
    } else {
        assert(s.take(s.len() as int) =~= s);
        s.len() as int
    }
}

/// A text is its trimmed text with white space round it, and the trimmed text neither
/// begins nor ends with white space.
pub proof fn law_trimmed_has_no_white_space_round_it(s: Seq<char>)
    ensures
        exists|from: int, to: int|
            {
                &&& 0 <= from <= to <= s.len()
                &&& trimmed(s) == #[trigger] s.subrange(from, to)
                &&& forall|i: int| 0 <= i < from ==> white_space(#[trigger] s[i])
                &&& forall|i: int| to <= i < s.len() ==> white_space(#[trigger] s[i])
            },
        trimmed(s).len() > 0 ==> !white_space(trimmed(s)[0]) && !white_space(trimmed(s).last()),
{
    let from = lemma_trim_start_takes(s);
    let kept = s.skip(from);
    let n = lemma_trim_end_takes(kept);
    let to = from + n;
    assert(kept.take(n) =~= s.subrange(from, to));
    assert forall|i: int| to <= i < s.len() implies white_space(#[trigger] s[i]) by {
        assert(kept[i - from] == s[i]);
    }
    assert(trimmed(s) == s.subrange(from, to));
    if trimmed(s).len() > 0 {
        assert(trimmed(s)[0] == s[from]);
        assert(trimmed(s).last() == kept[n - 1]);
    }
}

/// The one character whose lowercase depends on the characters round it:
/// a capital sigma.
pub const SIGMA: char = '\u{3a3}';

/// The lowercase of an ASCII character.
pub open spec fn ascii_lowercase(c: char) -> char {
    if 'A' <= c <= 'Z' {
        (c as u8 + 32) as char
    } else {
        c
    }
}

/// What `str::to_lowercase` gives for a text.
pub uninterp spec fn lowercased(s: Seq<char>) -> Seq<char>;

/// The lowercase mapping of one character, by itself.
pub open spec fn char_lowercase(c: char) -> Seq<char> {
    if (c as u32) < 128 {
        seq![ascii_lowercase(c)]
    } else {
        lowercased(seq![c])
    }
}

/// The lowercase mappings of the characters of `s`, one after the other.
pub open spec fn each_lowercase(s: Seq<char>) -> Seq<char>
    decreases s.len(),
{
    if s.len() == 0 {
        Seq::empty()
    } else {
        each_lowercase(s.drop_last()) + char_lowercase(s.last())
    }
}

/// The lowercase equivalent of a text.
pub open spec fn lowercase(s: Seq<char>) -> Seq<char> {
    if s.contains(SIGMA) {
        lowercased(s)
    } else {
        each_lowercase(s)
    }
}

/// An ASCII character other than `A` to `Z`.
pub open spec fn plain(c: char) -> bool {
    (c as u32) < 128 && !('A' <= c <= 'Z')
}

/// A text of ASCII characters other than `A` to `Z` is its own lowercase equivalent.
pub proof fn lemma_lowercase_of_plain(s: Seq<char>)
    requires
        forall|i: int| 0 <= i < s.len() ==> plain(#[trigger] s[i]),
    ensures
        lowercase(s) == s,
        each_lowercase(s) == s,
        !s.contains(SIGMA),
    decreases s.len(),
{
    if s.len() > 0 {
        assert forall|i: int| 0 <= i < s.drop_last().len() implies plain(
            #[trigger] s.drop_last()[i],
        ) by {
            assert(s.drop_last()[i] == s[i]);
        }
        lemma_lowercase_of_plain(s.drop_last());
        assert(plain(s[s.len() - 1]));
        assert(s.drop_last() + seq![s.last()] =~= s);
    } else {
        assert(s =~= Seq::empty());
    }
    assert forall|i: int| 0 <= i < s.len() implies s[i] != SIGMA by {
        assert(plain(s[i]));
    }
}

/// The lowercase equivalent of an ASCII text has its characters, with `a` to `z` in place
/// of `A` to `Z`.
pub proof fn law_lowercase_of_ascii(s: Seq<char>)
    requires
        forall|i: int| 0 <= i < s.len() ==> ((#[trigger] s[i]) as u32) < 128,
    ensures
        lowercase(s).len() == s.len(),
        forall|i: int|
            0 <= i < s.len() ==> (#[trigger] lowercase(s)[i]) as u32 == if 'A' <= s[i] <= 'Z' {
                (s[i] as u32 + 32) as u32
            } else {
                s[i] as u32
            },
    decreases s.len(),
{
    assert forall|i: int| 0 <= i < s.len() implies s[i] != SIGMA by {
        assert((s[i] as u32) < 128);
    }
    assert(!s.contains(SIGMA));
    if s.len() > 0 {
        let before = s.drop_last();
        assert forall|i: int| 0 <= i < before.len() implies ((#[trigger] before[i]) as u32) < 128 by {
            assert(before[i] == s[i]);
        }
        law_lowercase_of_ascii(before);
        let last = s.last();
        assert((s[s.len() - 1] as u32) < 128);
        assert(!before.contains(SIGMA));
        assert(lowercase(s) =~= lowercase(before).push(ascii_lowercase(last)));
    }
}

/// Without a capital sigma the lowercase equivalent of two texts, one after the other, is
/// that of the first followed by that of the second, and that of a character beyond ASCII
/// is what the character is lowercased to; with one it is what the text is lowercased to.
pub proof fn law_lowercase_goes_by_characters(a: Seq<char>, b: Seq<char>, c: char)
    ensures
        !a.contains(SIGMA) && !b.contains(SIGMA) ==> lowercase(a + b) == lowercase(a) + lowercase(
            b,
        ),
        c != '\u{3a3}' && c as u32 >= 128 ==> lowercase(seq![c]) == lowercased(seq![c]),
        a.contains('\u{3a3}') ==> lowercase(a) == lowercased(a),
{
    if !a.contains(SIGMA) && !b.contains(SIGMA) {
        assert forall|i: int| 0 <= i < (a + b).len() implies (a + b)[i] != SIGMA by {
            if i < a.len() {
                assert(a.contains(a[i]));
            } else {
                assert(b.contains(b[i - a.len()]));
            }
        }
        lemma_each_lowercase_of_both(a, b);
    }
    if c != SIGMA && c as u32 >= 128 {
        let one = seq![c];
        assert(!one.contains(SIGMA));
        assert(one.drop_last() =~= Seq::empty());
        assert(each_lowercase(one.drop_last()) == Seq::<char>::empty());
        assert(one.last() == c);
        assert(each_lowercase(one) =~= lowercased(one));
    }
}

proof fn lemma_each_lowercase_of_both(a: Seq<char>, b: Seq<char>)
    ensures
        each_lowercase(a + b) == each_lowercase(a) + each_lowercase(b),
    decreases b.len(),
{
    if b.len() == 0 {
        assert(a + b =~= a);
        assert(each_lowercase(a) + each_lowercase(b) =~= each_lowercase(a));
    } else {
        lemma_each_lowercase_of_both(a, b.drop_last());
        assert((a + b).drop_last() =~= a + b.drop_last());
        assert((a + b).last() == b.last());
        assert(each_lowercase(a + b) =~= each_lowercase(a) + each_lowercase(b));
    }
}

/// `str::to_lowercase` gives the lowercase equivalent of the text: the lowercase
/// mapping of each character. Only where a capital sigma stands in the text does
/// the result depend on more than the single characters; nothing is said of it
/// there but that it depends on the text alone.
#[verifier::external_body]
pub(crate) fn to_lowercase(s: &str) -> (r: String)
    ensures
        r@ == lowercased(s@),
        !s@.contains(SIGMA) ==> r@ == each_lowercase(s@),
{
    s.to_lowercase()
}

/// Whether Unicode gives a character the property `Lowercase`, as
/// `char::is_lowercase` tells it.
pub uninterp spec fn is_lowercase(c: char) -> bool;

/// `char::is_lowercase` tells whether the character has the Unicode property
/// `Lowercase`. Of the ASCII characters, those are `a` to `z`. A character that has
/// it is its own lowercase mapping; a capital sigma does not have it.
pub assume_specification[ char::is_lowercase ](c: char) -> (r: bool)
    ensures
        r == is_lowercase(c),
        (c as u32) < 128 ==> r == ('a' <= c <= 'z'),
        r ==> c != SIGMA && char_lowercase(c) == seq![c],
;

/// A character that is seen to be its own lowercase mapping by itself: an ASCII
/// character other than `A` to `Z`, or one with the property `Lowercase`.
pub open spec fn settled(c: char) -> bool {
    plain(c) || is_lowercase(c)
}

/// Whether every character of `s` is seen to be its own lowercase mapping. If so, `s`
/// is its own lowercase equivalent, and no text was allocated to find that out.
pub fn is_settled(s: &str) -> (r: bool)
    ensures
        r == (forall|i: int| 0 <= i < s@.len() ==> settled(#[trigger] s@[i])),
        r ==> lowercase(s@) == s@,
{
    let mut n: usize = 0;
    let total: usize = s.unicode_len();
    assert(s@.take(0) =~= Seq::empty());
    for c in it: s.chars()
        invariant
            it.seq() == s@,
            n == it.index(),
            total == s@.len(),
            n <= total,
            forall|i: int| 0 <= i < n ==> settled(#[trigger] s@[i]) && s@[i] != SIGMA,
            each_lowercase(s@.take(n as int)) == s@.take(n as int),
    {
        let unchanged = ((c as u32) < 128 && !('A' <= c && c <= 'Z')) || c.is_lowercase();
        if !unchanged {
            assert(!settled(s@[n as int]));
            return false;
        }
        proof {
            assert(s@.take(n + 1).drop_last() =~= s@.take(n as int));
            assert(s@.take(n as int) + seq![c] =~= s@.take(n + 1));
        }
        n = n + 1;
    }
    proof {
        assert(s@.take(n as int) =~= s@);
    }
    true
}

/// `<str as PartialEq>::eq` tells whether the two texts are the same.
pub assume_specification[ <str as PartialEq>::eq ](a: &str, b: &str) -> (r: bool)
    ensures
        r == (a@ == b@),
;

/// Whether `a` and `b` are the same text.
pub fn same(a: &str, b: &str) -> (r: bool)
    ensures
        r == (a@ == b@),
{
    str::eq(a, b)
}

/// How one text stands to another in their order.
#[derive(Clone, Copy, Debug, PartialEq, Eq, Structural)]
pub enum Order {
    Less,
    Equal,
    Greater,
}

/// The lexicographic order of two texts by their characters.
pub open spec fn ordered(a: Seq<char>, b: Seq<char>) -> Order
    decreases a.len(),
{
    if a.len() == 0 && b.len() == 0 {
        Order::Equal
    } else if a.len() == 0 {
        Order::Less
    } else if b.len() == 0 {
        Order::Greater
    } else if a[0] < b[0] {
        Order::Less
    } else if b[0] < a[0] {
        Order::Greater
    } else {
        ordered(a.drop_first(), b.drop_first())
    }
}

/// Two texts are equal in their order exactly where they are the same.
pub proof fn law_order_agrees_with_equality(a: Seq<char>, b: Seq<char>)
    ensures
        ordered(a, b) == Order::Equal <==> a == b,
    decreases a.len(),
{
    if a.len() > 0 && b.len() > 0 {
        law_order_agrees_with_equality(a.drop_first(), b.drop_first());
        if a[0] == b[0] && a.drop_first() == b.drop_first() {
            assert(a =~= seq![a[0]] + a.drop_first());
            assert(b =~= seq![b[0]] + b.drop_first());
        }
    } else {
        assert(a.len() == 0 && b.len() == 0 ==> a =~= b);
    }
}

/// The first character in which two texts differ decides their order; a text stands
/// before every longer one that it begins.
pub proof fn law_first_difference_decides(
    common: Seq<char>,
    a: char,
    b: char,
    rest: Seq<char>,
    other: Seq<char>,
)
    ensures
        (a as u32) < (b as u32) ==> ordered(common + seq![a] + rest, common + seq![b] + other)
            == Order::Less,
        (a as u32) > (b as u32) ==> ordered(common + seq![a] + rest, common + seq![b] + other)
            == Order::Greater,
        ordered(common, common + seq![a] + rest) == Order::Less,
    decreases common.len(),
{
    let first = common + seq![a] + rest;
    let second = common + seq![b] + other;
    if common.len() > 0 {
        let less = common.drop_first();
        law_first_difference_decides(less, a, b, rest, other);
        assert(first.drop_first() =~= less + seq![a] + rest);
        assert(second.drop_first() =~= less + seq![b] + other);
        assert(first[0] == common[0] && second[0] == common[0]);
    } else {
        assert(first[0] == a && second[0] == b);
    }
}

/// The order of two texts turns round when they change places.
pub proof fn law_order_turns_round(a: Seq<char>, b: Seq<char>)
    ensures
        ordered(a, b) == Order::Less <==> ordered(b, a) == Order::Greater,
    decreases a.len(),
{
    if a.len() > 0 && b.len() > 0 {
        law_order_turns_round(a.drop_first(), b.drop_first());
    }
}

/// The order of texts is transitive.
pub proof fn law_order_is_transitive(a: Seq<char>, b: Seq<char>, c: Seq<char>)
    requires
        ordered(a, b) == Order::Less,
        ordered(b, c) == Order::Less,
    ensures
        ordered(a, c) == Order::Less,
    decreases a.len(),
{
    if a.len() > 0 && b.len() > 0 && c.len() > 0 && a[0] == b[0] && b[0] == c[0] {
        law_order_is_transitive(a.drop_first(), b.drop_first(), c.drop_first());
    }
}

/// The characters of `s`, one by one.
pub fn characters(s: &str) -> (r: Vec<char>)
    ensures
        r@ == s@,
{
    let mut out: Vec<char> = Vec::new();
    for c in it: s.chars()
        invariant
            it.seq() == s@,
            out@ == s@.take(it.index()),
    {
        out.push(c);
    }
    assert(s@.take(s@.len() as int) =~= s@);
    out
}

/// Compares two texts by their characters.
pub fn order(a: &str, b: &str) -> (r: Order)
    ensures
        r == ordered(a@, b@),
{
    let x = characters(a);
    let y = characters(b);
    let mut i: usize = 0;
    proof {
        assert(x@.skip(0) =~= x@);
        assert(y@.skip(0) =~= y@);
    }
    while i < x.len() && i < y.len()
        invariant
            i <= x.len(),
            i <= y.len(),
            x@ == a@,
            y@ == b@,
            ordered(x@, y@) == ordered(x@.skip(i as int), y@.skip(i as int)),
        decreases x.len() - i,
    {
        if x[i] < y[i] {
            return Order::Less;
        }
        if y[i] < x[i] {
            return Order::Greater;
        }
        proof {
            assert(x@.skip(i as int).drop_first() =~= x@.skip(i + 1));
            assert(y@.skip(i as int).drop_first() =~= y@.skip(i + 1));
        }
        i = i + 1;
    }
    if i < y.len() {
        Order::Less
    } else if i < x.len() {
        Order::Greater
    } else {
        Order::Equal
    }
}

} // verus!
