//! The line filter: the content of a file is cut into lines, each line is
//! read as text, and the pattern selects the lines that are kept.

use vstd::prelude::*;
use vstd::multiset::lemma_multiset_empty_len;
use vstd::seq_lib::{to_multiset_build, to_multiset_len};
use vstd::slice::slice_subrange;
use vstd::string::StringSliceAdditionalSpecFns;
use vstd::utf8::{decode_utf8, encode_utf8_decode_utf8, valid_utf8};
use crate::pattern::{line_selected, regex_accepts, selects};

verus! {

/// The byte that ends a line.
pub const LINE_FEED: u8 = 10;

/// Why bytes could not be read as text.
#[verifier::external_type_specification]
#[verifier::external_body]
pub struct ExUtf8Error(core::str::Utf8Error);

/// `core::str::from_utf8` checks that the bytes are well-formed UTF-8. It
/// succeeds exactly when they are, and the string slice it returns is then
/// made of these same bytes.
pub assume_specification[ core::str::from_utf8 ](bytes: &[u8]) -> (text: Result<
    &str,
    core::str::Utf8Error,
>)
    ensures
        text is Ok <==> valid_utf8(bytes@),
        text matches Ok(decoded) ==> decoded.spec_bytes() == bytes@,
;

/// Where the line that starts at `start` ends: just behind the first line
/// feed at or after `start`, or at the end of `content` if there is none.
pub open spec fn line_end(content: Seq<u8>, start: int) -> int
    decreases content.len() - start,
{
    if start < 0 || start >= content.len() {
        content.len() as int
    } else if content[start] == LINE_FEED {
        start + 1
    } else {
        line_end(content, start + 1)
    }
}

/// `content[start..end]` is one whole line: it is not empty, no line feed
/// stands before its last byte, and it ends with a line feed or with the
/// content.
pub open spec fn is_line(content: Seq<u8>, start: int, end: int) -> bool {
    &&& 0 <= start < end <= content.len()
    &&& forall|k: int| start <= k < end - 1 ==> content[k] != LINE_FEED
    &&& (content[end - 1] == LINE_FEED || end == content.len())
}

/// The line that starts at `start` is the one and only stretch of bytes from
/// `start` that [`is_line`] accepts.
pub proof fn lemma_line_end(content: Seq<u8>, start: int)
    requires
        0 <= start < content.len(),
    ensures
        is_line(content, start, line_end(content, start)),
        forall|end: int| is_line(content, start, end) ==> end == line_end(content, start),
    decreases content.len() - start,
{
    if content[start] == LINE_FEED {
        assert forall|end: int| is_line(content, start, end) implies end == start + 1 by {
            if end > start + 1 {
                assert(content[start] != LINE_FEED);
            }
        }
    } else if start + 1 < content.len() {
        lemma_line_end(content, start + 1);
        assert forall|end: int| is_line(content, start, end) implies end == line_end(
            content,
            start,
        ) by {
            assert(is_line(content, start + 1, end));
        }
    } else {
        assert(line_end(content, start + 1) == content.len());
    }
}

/// The lines of `content` from `start` on, as text, terminators included.
/// Reading stops in front of the first line that is not well-formed UTF-8:
/// that line and all behind it are left out.
pub open spec fn text_lines_from(content: Seq<u8>, start: int) -> Seq<Seq<char>>
    decreases content.len() - start,
{
    if start < 0 || start >= content.len() {
        Seq::empty()
    } else {
        proof {
            lemma_line_end(content, start);
        }
        let end = line_end(content, start);
        let line = content.subrange(start, end);
        if valid_utf8(line) {
            seq![decode_utf8(line)] + text_lines_from(content, end)
        } else {
            Seq::empty()
        }
    }
}

/// The lines of `content`, as text.
pub open spec fn text_lines(content: Seq<u8>) -> Seq<Seq<char>> {
    text_lines_from(content, 0)
}

/// Finds the end of the line that starts at `start`.
fn find_line_end(content: &[u8], start: usize) -> (end: usize)
    requires
        start < content.len(),
    ensures
        end == line_end(content@, start as int),
        start < end <= content.len(),
{
    let mut at = start;
    while at < content.len() && content[at] != LINE_FEED
        invariant
            start <= at <= content.len(),
            line_end(content@, start as int) == line_end(content@, at as int),
        decreases content.len() - at,
    {
        at += 1;
    }
    if at < content.len() {
        at + 1
    } else {
        at
    }
}

/// Cuts `content` into lines and reads each as text. A line keeps its
/// terminator; a last line without one is a line all the same. A line that
/// is not well-formed UTF-8 ends the reading.
pub fn read_lines(content: &[u8]) -> (lines: Vec<String>)
    ensures
        lines.deep_view() == text_lines(content@),
{
    let mut lines: Vec<String> = Vec::new();
    let mut start: usize = 0;
    assert(lines.deep_view() =~= Seq::<Seq<char>>::empty());
    while start < content.len()
        invariant
            start <= content.len(),
            text_lines(content@) == lines.deep_view() + text_lines_from(content@, start as int),
        decreases content.len() - start,
    {
        let end = find_line_end(content, start);
        let line = slice_subrange(content, start, end);
        match core::str::from_utf8(line) {
            Ok(text) => {
                let ghost before = lines.deep_view();
                proof {
                    encode_utf8_decode_utf8(text@);
                }
                lines.push(text.to_owned());
                assert(lines.deep_view() =~= before.push(text@));
                assert(before + (seq![text@] + text_lines_from(content@, end as int))
                    =~= before.push(text@) + text_lines_from(content@, end as int));
            },
            Err(_) => {
                assert(lines.deep_view() + Seq::<Seq<char>>::empty() =~= lines.deep_view());
                return lines;
            },
        }
        start = end;
    }
    assert(lines.deep_view() + Seq::<Seq<char>>::empty() =~= lines.deep_view());
    lines
}

/// The lines among `lines` that the pattern selects, in their order.
pub open spec fn selected(lines: Seq<Seq<char>>, pattern: regex::Regex, invert: bool) -> Seq<
    Seq<char>,
> {
    lines.filter(|line: Seq<char>| selects(pattern, invert, line))
}

/// A selection and its inverse part the lines between them. Each line is
/// kept by exactly one of the two; the two results together hold every line
/// as often as it was read, and no line stands in both.
pub proof fn lemma_inverse_selections_partition(lines: Seq<Seq<char>>, pattern: regex::Regex)
    ensures
        forall|i: int|
            0 <= i < lines.len() ==> selects(pattern, false, #[trigger] lines[i]) != selects(
                pattern,
                true,
                lines[i],
            ),
        selected(lines, pattern, false).to_multiset().add(
            selected(lines, pattern, true).to_multiset(),
        ) == lines.to_multiset(),
        selected(lines, pattern, false).len() + selected(lines, pattern, true).len()
            == lines.len(),
        forall|i: int, j: int|
            0 <= i < selected(lines, pattern, false).len() && 0 <= j < selected(
                lines,
                pattern,
                true,
            ).len() ==> #[trigger] selected(lines, pattern, false)[i] != #[trigger] selected(
                lines,
                pattern,
                true,
            )[j],
    decreases lines.len(),
{
    let direct = selected(lines, pattern, false);
    let inverse = selected(lines, pattern, true);
    reveal(Seq::filter);
    broadcast use vstd::multiset::group_multiset_axioms;

    if lines.len() == 0 {
        to_multiset_len(lines);
        lemma_multiset_empty_len(lines.to_multiset());
        assert(direct.to_multiset().add(inverse.to_multiset()) =~= lines.to_multiset());
    } else {
        let front = lines.drop_last();
        let last = lines.last();
        lemma_inverse_selections_partition(front, pattern);
        let front_direct = selected(front, pattern, false);
        let front_inverse = selected(front, pattern, true);
        assert(lines =~= front.push(last));
        to_multiset_build(front, last);
        if regex_accepts(pattern, last) {
            assert(direct == front_direct.push(last));
            assert(inverse == front_inverse);
            to_multiset_build(front_direct, last);
        } else {
            assert(direct == front_direct);
            assert(inverse == front_inverse.push(last));
            to_multiset_build(front_inverse, last);
        }
        assert(direct.to_multiset().add(inverse.to_multiset()) =~= front_direct.to_multiset().add(
            front_inverse.to_multiset(),
        ).insert(last));
    }
    assert forall|i: int, j: int| 0 <= i < direct.len() && 0 <= j < inverse.len() implies direct[i]
        != inverse[j] by {
        lines.lemma_filter_pred(|line: Seq<char>| selects(pattern, false, line), i);
        lines.lemma_filter_pred(|line: Seq<char>| selects(pattern, true, line), j);
    }
}

/// Keeps the lines that the pattern selects, each as it was read.
pub fn select_lines(lines: &Vec<String>, pattern: &regex::Regex, invert_match: bool) -> (kept:
    Vec<String>)
    ensures
        kept.deep_view() == selected(lines.deep_view(), *pattern, invert_match),
{
    let mut kept: Vec<String> = Vec::new();
    let ghost keep = |line: Seq<char>| selects(*pattern, invert_match, line);
    let mut at: usize = 0;
    proof {
        reveal(Seq::filter);
        assert(lines.deep_view().take(0) =~= Seq::<Seq<char>>::empty());
        assert(kept.deep_view() =~= Seq::<Seq<char>>::empty());
    }
    while at < lines.len()
        invariant
            at <= lines.len(),
            keep == |line: Seq<char>| selects(*pattern, invert_match, line),
            kept.deep_view() == lines.deep_view().take(at as int).filter(keep),
        decreases lines.len() - at,
    {
        let ghost before = kept.deep_view();
        let line = &lines[at];
        proof {
            reveal(Seq::filter);
            let next = lines.deep_view().take(at + 1);
            assert(next.drop_last() =~= lines.deep_view().take(at as int));
            assert(next.last() == line@);
        }
        if line_selected(pattern, invert_match, line.as_str()) {
            kept.push(line.clone());
            assert(kept.deep_view() =~= before.push(line@));
        }
        at += 1;
    }
    assert(lines.deep_view().take(lines.len() as int) =~= lines.deep_view());
    kept
}

/// The line filter: the lines of `content` that the pattern selects, or,
/// with `invert_match`, those that it does not, in their order and each
/// with its terminator as it stood in the content.
pub fn find_lines(content: &[u8], pattern: &regex::Regex, invert_match: bool) -> (kept: Vec<
    String,
>)
    ensures
        kept.deep_view() == selected(text_lines(content@), *pattern, invert_match),
{
    let lines = read_lines(content);
    select_lines(&lines, pattern, invert_match)
}

} // verus!
