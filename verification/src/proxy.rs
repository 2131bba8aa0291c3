//! The rewriting rule of a relay that sits between a chat client and the
//! chat server: every payment address that stands alone in a line is
//! replaced by the relay's own.

use vstd::prelude::*;
use vstd::slice::{slice_subrange, slice_to_vec};
use vstd::string::*;
use vstd::utf8::*;
use crate::text::decode_text;

verus! {

/// The address that takes the place of every other.
pub const TONY_BOGUS: &'static str = "7YWHMfk9JZe0LM0g1ZauHuiSxhI";

/// The pattern of an address: a `7` and 25 to 34 further word characters.
pub const BOGUS_REGEX: &'static str = "(7(\\w){25,34})";

/// The byte of a space.
pub const SPACE: u8 = 0x20;

/// The matches of a regular expression in a text, from left to right, each
/// as the byte offsets of its start and end; `None` where the pattern does
/// not compile.
pub uninterp spec fn regex_matches(pattern: Seq<char>, haystack: Seq<char>) -> Option<
    Seq<(usize, usize)>,
>;

/// Finds the matches of `pattern` in `haystack`.
///
/// Trusted: the pattern is compiled with `regex::Regex::new` and matched
/// with `Regex::find_iter`; each match is returned as `Match::start` and
/// `Match::end`. The contract gives the outcome its name and claims nothing
/// more of it.
#[verifier::external_body]
fn find_matches(pattern: &str, haystack: &str) -> (found: Option<Vec<(usize, usize)>>)
    ensures
        match found {
            Some(spans) => regex_matches(pattern@, haystack@) == Some(spans@),
            None => regex_matches(pattern@, haystack@) is None,
        },
{
    match regex::Regex::new(pattern) {
        Ok(re) => {
            let mut spans = Vec::new();
            for m in re.find_iter(haystack) {
                spans.push((m.start(), m.end()));
            }
            Some(spans)
        },
        Err(_) => None,
    }
}

/// `text` with every occurrence of `from` replaced by `to`: the
/// occurrences are taken from left to right and do not overlap.
pub open spec fn replaced(text: Seq<char>, from: Seq<char>, to: Seq<char>) -> Seq<char>
    decreases text.len(),
{
    if from.len() == 0 || text.len() < from.len() {
        text
    } else if text.take(from.len() as int) == from {
        to + replaced(text.skip(from.len() as int), from, to)
    } else {
        seq![text[0]] + replaced(text.skip(1), from, to)
    }
}

/// Replaces every occurrence of `from` in `text` by `to`.
///
/// Trusted: this is `str::replace` of the standard library, which replaces
/// all matches of the pattern, found from left to right without overlap.
#[verifier::external_body]
fn replace_all(text: &str, from: &str, to: &str) -> (res: String)
    requires
        from@.len() > 0,
    ensures
        res@ == replaced(text@, from@, to@),
{
    text.replace(from, to)
}

/// A span that can be cut out of a text of these bytes: it is not empty,
/// lies within them, and what it covers is text.
pub open spec fn span_fits(bytes: Seq<u8>, span: (usize, usize)) -> bool {
    &&& span.0 < span.1 <= bytes.len()
    &&& valid_utf8(bytes.subrange(span.0 as int, span.1 as int))
}

/// Every span can be cut out.
pub open spec fn spans_fit(bytes: Seq<u8>, spans: Seq<(usize, usize)>) -> bool {
    forall|i: int| 0 <= i < spans.len() ==> span_fits(bytes, #[trigger] spans[i])
}

/// A span stands alone where a space or the line's start precedes it and a
/// space or the line's end follows it.
pub open spec fn stands_alone(bytes: Seq<u8>, span: (usize, usize)) -> bool {
    &&& span.0 == 0 || bytes[span.0 - 1] == SPACE
    &&& span.1 == bytes.len() || bytes[span.1 as int] == SPACE
}

/// The text that a span covers.
pub open spec fn covered(bytes: Seq<u8>, span: (usize, usize)) -> Seq<char> {
    decode_utf8(bytes.subrange(span.0 as int, span.1 as int))
}

/// A message after the spans have been dealt with in their order: for each
/// one that stands alone in the message, every occurrence of the text that
/// it covers is replaced in what the earlier ones have left.
pub open spec fn rewritten(message: Seq<char>, spans: Seq<(usize, usize)>) -> Seq<char>
    decreases spans.len(),
{
    if spans.len() == 0 {
        message
    } else {
        let earlier = rewritten(message, spans.drop_last());
        if stands_alone(encode_utf8(message), spans.last()) {
            replaced(earlier, covered(encode_utf8(message), spans.last()), TONY_BOGUS@)
        } else {
            earlier
        }
    }
}

/// Text that is cut out of a non-empty span is not empty.
proof fn lemma_covered_nonempty(bytes: Seq<u8>)
    requires
        bytes.len() > 0,
        valid_utf8(bytes),
    ensures
        decode_utf8(bytes).len() > 0,
{
}

/// Rewrites a message whose candidate spans are given, and ends it with a
/// newline.
pub fn rewrite_with(message: &str, spans: &Vec<(usize, usize)>) -> (res: String)
    requires
        spans_fit(message.spec_bytes(), spans@),
    ensures
        res@ == rewritten(message@, spans@) + "\n"@,
{
    let bytes = message.as_bytes();
    let end = bytes.len();
    let mut result = String::from_str(message);
    let mut i: usize = 0;
    assert(spans@.take(0) =~= Seq::<(usize, usize)>::empty());
    while i < spans.len()
        invariant
            0 <= i <= spans.len(),
            bytes@ == encode_utf8(message@),
            end == bytes@.len(),
            spans_fit(bytes@, spans@),
            result@ == rewritten(message@, spans@.take(i as int)),
        decreases spans.len() - i,
    {
        let (s, e) = spans[i];
        proof {
            assert(span_fits(bytes@, spans@[i as int]));
            assert(spans@.take(i + 1).drop_last() =~= spans@.take(i as int));
            assert(spans@.take(i + 1).last() == (s, e));
        }
        let preceded = s == 0 || bytes[s - 1] == SPACE;
        let followed = e == end || bytes[e] == SPACE;
        if preceded && followed {
            match decode_text(slice_to_vec(slice_subrange(bytes, s, e))) {
                Some(address) => {
                    proof {
                        lemma_covered_nonempty(bytes@.subrange(s as int, e as int));
                    }
                    result = replace_all(result.as_str(), address.as_str(), TONY_BOGUS);
                },
                None => {},
            }
        }
        i += 1;
    }
    assert(spans@.take(spans.len() as int) =~= spans@);
    result.append("\n");
    result
}

/// Whether every span can be cut out of the message.
fn check_spans(message: &str, spans: &Vec<(usize, usize)>) -> (ok: bool)
    ensures
        ok == spans_fit(message.spec_bytes(), spans@),
{
    let bytes = message.as_bytes();
    let end = bytes.len();
    let mut i: usize = 0;
    while i < spans.len()
        invariant
            0 <= i <= spans.len(),
            bytes@ == message.spec_bytes(),
            end == bytes@.len(),
            forall|j: int| 0 <= j < i ==> span_fits(bytes@, #[trigger] spans@[j]),
        decreases spans.len() - i,
    {
        let (s, e) = spans[i];
        if !(s < e && e <= end) {
            assert(!span_fits(bytes@, spans@[i as int]));
            return false;
        }
        if decode_text(slice_to_vec(slice_subrange(bytes, s, e))).is_none() {
            assert(!span_fits(bytes@, spans@[i as int]));
            return false;
        }
        i += 1;
    }
    true
}

/// Rewrites a message: the matches of `pattern` are its candidates.
///
/// Returns the rewritten line where the pattern compiles and its matches
/// can be cut out of the message, and `None` otherwise.
pub fn rewrite_message(pattern: &str, message: &str) -> (res: Option<String>)
    ensures
        match regex_matches(pattern@, message@) {
            Some(spans) => if spans_fit(message.spec_bytes(), spans) {
                res matches Some(line) && line@ == rewritten(message@, spans) + "\n"@
            } else {
                res is None
            },
            None => res is None,
        },
{
    match find_matches(pattern, message) {
        Some(spans) => {
            if check_spans(message, &spans) {
                Some(rewrite_with(message, &spans))
            } else {
                None
            }
        },
        None => None,
    }
}

} // verus!
