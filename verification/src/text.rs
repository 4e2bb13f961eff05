//! Text handling: command templates and captured output.

use vstd::prelude::*;
use vstd::string::StringExecFns;
use vstd::string::StrSliceExecFns;

verus! {

broadcast use vstd::string::group_string_axioms;

/// `text` with every occurrence of `pattern` replaced by `with`. Occurrences
/// are found from left to right and do not overlap. The pattern is not empty.
pub open spec fn replaced(text: Seq<char>, pattern: Seq<char>, with: Seq<char>) -> Seq<char>
    decreases text.len(),
{
    if pattern.len() == 0 || text.len() < pattern.len() {
        text
    } else if pattern.is_prefix_of(text) {
        with + replaced(text.skip(pattern.len() as int), pattern, with)
    } else {
        seq![text[0]] + replaced(text.skip(1), pattern, with)
    }
}

/// A line without the carriage return that stood before its line feed.
pub open spec fn without_return(line: Seq<u8>) -> Seq<u8> {
    if line.len() > 0 && line.last() == 13u8 {
        line.drop_last()
    } else {
        line
    }
}

/// The lines of `rest`, the first of them continuing `current`.
pub open spec fn lines_after(rest: Seq<u8>, current: Seq<u8>) -> Seq<Seq<u8>>
    decreases rest.len(),
{
    if rest.len() == 0 {
        if current.len() == 0 {
            Seq::empty()
        } else {
            seq![current]
        }
    } else if rest[0] == 10u8 {
        seq![without_return(current)] + lines_after(rest.skip(1), Seq::empty())
    } else {
        lines_after(rest.skip(1), current.push(rest[0]))
    }
}

/// The lines of captured output. A line ends at a line feed; a carriage
/// return directly before the line feed belongs to the line ending. What
/// follows the last line feed is a line of its own unless it is empty.
pub open spec fn byte_lines(bytes: Seq<u8>) -> Seq<Seq<u8>> {
    lines_after(bytes, Seq::empty())
}

/// The text that `String::from_utf8_lossy` decodes from `bytes`.
pub uninterp spec fn lossy_utf8(bytes: Seq<u8>) -> Seq<char>;

/// The text that `str::to_lowercase` makes of `text`.
pub uninterp spec fn lowercase_of(text: Seq<char>) -> Seq<char>;

/// The lines of captured output as text.
pub open spec fn decoded_lines(bytes: Seq<u8>) -> Seq<Seq<char>> {
    byte_lines(bytes).map_values(|line: Seq<u8>| lossy_utf8(line))
}

/// Decodes bytes as UTF-8 with `String::from_utf8_lossy` of std, which puts
/// the replacement character in place of what is not valid. The contract
/// gives the decoded text a name and claims no more.
#[verifier::external_body]
pub(crate) fn decode_lossy(bytes: &Vec<u8>) -> (text: String)
    ensures
        text@ == lossy_utf8(bytes@),
{
    String::from_utf8_lossy(bytes).into_owned()
}

/// Lowercases text with `str::to_lowercase` of std, which follows the Unicode
/// case mapping. The contract gives the result a name and claims no more.
#[verifier::external_body]
pub(crate) fn to_lowercase(text: &str) -> (lower: String)
    ensures
        lower@ == lowercase_of(text@),
{
    text.to_lowercase()
}

/// The characters of `text`.
pub fn chars_of(text: &str) -> (chars: Vec<char>)
    ensures
        chars@ == text@,
{
    let mut chars: Vec<char> = Vec::new();
    for c in it: text.chars()
        invariant
            it.seq() == text@,
            chars@ == it.seq().take(it.index()),
    {
        chars.push(c);
        assert(it.seq().take(it.index() + 1) =~= it.seq().take(it.index()).push(c));
    }
    assert(chars@ =~= text@);
    chars
}

/// Whether two texts are the same, character by character.
pub fn same_text(left: &str, right: &str) -> (same: bool)
    ensures
        same == (left@ == right@),
{
    let a = chars_of(left);
    let b = chars_of(right);
    if a.len() != b.len() {
        assert(left@.len() != right@.len());
        return false;
    }
    let mut i: usize = 0;
    while i < a.len()
        invariant
            a@ == left@,
            b@ == right@,
            i <= a.len() == b.len(),
            forall|k: int| 0 <= k < i ==> a[k] == b[k],
        decreases a.len() - i,
    {
        if a[i] != b[i] {
            assert(left@[i as int] != right@[i as int]);
            return false;
        }
        i += 1;
    }
    assert(a@ =~= b@);
    true
}

/// Whether `pattern` stands in `text` at position `at`.
fn matches_at(text: &Vec<char>, at: usize, pattern: &Vec<char>) -> (found: bool)
    requires
        at + pattern.len() <= text.len(),
    ensures
        found == pattern@.is_prefix_of(text@.skip(at as int)),
{
    let mut j: usize = 0;
    while j < pattern.len()
        invariant
            j <= pattern.len(),
            at + pattern.len() <= text.len(),
            forall|k: int| 0 <= k < j ==> pattern[k] == text[at + k],
        decreases pattern.len() - j,
    {
        if pattern[j] != text[at + j] {
            assert(text@.skip(at as int).subrange(0, pattern.len() as int)[j as int] != pattern[j as int]);
            return false;
        }
        j += 1;
    }
    assert(pattern@ =~= text@.skip(at as int).subrange(0, pattern.len() as int));
    true
}

proof fn lemma_replaced_step(
    text: Seq<char>,
    pattern: Seq<char>,
    with: Seq<char>,
    done: Seq<char>,
    start: int,
    at: int,
)
    requires
        pattern.len() > 0,
        0 <= start <= at,
        at + pattern.len() <= text.len(),
        replaced(text, pattern, with) == done + text.subrange(start, at) + replaced(
            text.skip(at),
            pattern,
            with,
        ),
    ensures
        pattern.is_prefix_of(text.skip(at)) ==> replaced(text, pattern, with) == done
            + text.subrange(start, at) + with + text.subrange(
            at + pattern.len(),
            at + pattern.len(),
        ) + replaced(text.skip(at + pattern.len()), pattern, with),
        !pattern.is_prefix_of(text.skip(at)) ==> replaced(text, pattern, with) == done
            + text.subrange(start, at + 1) + replaced(text.skip(at + 1), pattern, with),
{
    let rest = text.skip(at);
    if pattern.is_prefix_of(rest) {
        assert(rest.skip(pattern.len() as int) =~= text.skip(at + pattern.len()));
        assert(done + text.subrange(start, at) + with + text.subrange(
            at + pattern.len(),
            at + pattern.len(),
        ) + replaced(text.skip(at + pattern.len()), pattern, with) =~= done + text.subrange(
            start,
            at,
        ) + (with + replaced(text.skip(at + pattern.len()), pattern, with)));
    } else {
        assert(rest.skip(1) =~= text.skip(at + 1));
        assert(done + text.subrange(start, at + 1) + replaced(text.skip(at + 1), pattern, with)
            =~= done + text.subrange(start, at) + (seq![rest[0]] + replaced(
            text.skip(at + 1),
            pattern,
            with,
        )));
    }
}

/// `text` with every occurrence of `pattern` replaced by `with`, found from
/// left to right.
pub fn replace_all(text: &str, pattern: &str, with: &str) -> (out: String)
    requires
        pattern@.len() > 0,
    ensures
        out@ == replaced(text@, pattern@, with@),
{
    let source = chars_of(text);
    let wanted = chars_of(pattern);
    let mut out = String::new();
    let mut start: usize = 0;
    let mut at: usize = 0;
    assert(text@.skip(0) =~= text@);
    assert(out@ + text@.subrange(0, 0) + replaced(text@, pattern@, with@) =~= replaced(
        text@,
        pattern@,
        with@,
    ));
    while source.len() - at >= wanted.len()
        invariant
            source@ == text@,
            wanted@ == pattern@,
            pattern@.len() > 0,
            start <= at <= source.len(),
            replaced(text@, pattern@, with@) == out@ + text@.subrange(start as int, at as int)
                + replaced(text@.skip(at as int), pattern@, with@),
        decreases source.len() - at,
    {
        proof {
            lemma_replaced_step(text@, pattern@, with@, out@, start as int, at as int);
        }
        if matches_at(&source, at, &wanted) {
            out.append(text.substring_char(start, at));
            out.append(with);
            at = at + wanted.len();
            start = at;
        } else {
            at = at + 1;
        }
    }
    out.append(text.substring_char(start, source.len()));
    assert(out@ =~= replaced(text@, pattern@, with@)) by {
        assert(replaced(text@.skip(at as int), pattern@, with@) == text@.skip(at as int));
    }
    out
}

/// Splits captured output into its lines.
pub fn split_lines(bytes: &Vec<u8>) -> (lines: Vec<Vec<u8>>)
    ensures
        lines.deep_view() == byte_lines(bytes@),
{
    let mut lines: Vec<Vec<u8>> = Vec::new();
    let mut current: Vec<u8> = Vec::new();
    let mut i: usize = 0;
    let ghost mut done: Seq<Seq<u8>> = Seq::empty();
    assert(bytes@.skip(0) =~= bytes@);
    assert(done + lines_after(bytes@, Seq::empty()) =~= byte_lines(bytes@));
    while i < bytes.len()
        invariant
            i <= bytes.len(),
            lines.len() == done.len(),
            forall|k: int| 0 <= k < done.len() ==> lines[k]@ == done[k],
            byte_lines(bytes@) == done + lines_after(bytes@.skip(i as int), current@),
        decreases bytes.len() - i,
    {
        let byte = bytes[i];
        proof {
            assert(bytes@.skip(i as int).skip(1) =~= bytes@.skip(i + 1));
            assert(bytes@.skip(i as int)[0] == byte);
        }
        if byte == 10u8 {
            let length = current.len();
            if length > 0 && current[length - 1] == 13u8 {
                current.pop();
            }
            proof {
                let line = current@;
                assert(done + (seq![line] + lines_after(bytes@.skip(i + 1), Seq::empty()))
                    =~= done.push(line) + lines_after(bytes@.skip(i + 1), Seq::empty()));
                done = done.push(line);
            }
            lines.push(current);
            current = Vec::new();
        } else {
            current.push(byte);
        }
        i += 1;
    }
    if current.len() > 0 {
        proof {
            assert(done + seq![current@] =~= done.push(current@));
            done = done.push(current@);
        }
        lines.push(current);
    } else {
        assert(done + Seq::<Seq<u8>>::empty() =~= done);
    }
    assert(lines.deep_view() =~= done) by {
        assert forall|k: int| 0 <= k < lines.len() implies lines.deep_view()[k] == done[k] by {
            assert(lines[k].deep_view() =~= lines[k]@);
        }
    }
    lines
}

/// The lines of captured output as text, each decoded on its own.
pub fn decode_lines(bytes: &Vec<u8>) -> (lines: Vec<String>)
    ensures
        lines.deep_view() == decoded_lines(bytes@),
{
    let raw = split_lines(bytes);
    let mut lines: Vec<String> = Vec::new();
    let mut i: usize = 0;
    while i < raw.len()
        invariant
            i <= raw.len(),
            raw.deep_view() == byte_lines(bytes@),
            lines.len() == i,
            forall|k: int| 0 <= k < i ==> lines[k]@ == lossy_utf8(raw[k]@),
        decreases raw.len() - i,
    {
        lines.push(decode_lossy(&raw[i]));
        i += 1;
    }
    assert(lines.deep_view() =~= decoded_lines(bytes@)) by {
        assert forall|k: int| 0 <= k < raw.len() implies raw[k]@ == byte_lines(bytes@)[k] by {
            assert(raw[k].deep_view() =~= raw[k]@);
            assert(raw.deep_view()[k] == raw[k]@);
        }
    }
    lines
}

} // verus!
