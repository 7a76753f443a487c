//! Channel routes: `/`-joined segment sequences used as notification topics.
//!
//! A route is modelled as a sequence of segments, each a sequence of
//! characters. [`route_text`] joins segments into the topic string and
//! [`route_segments`] cuts a topic string at every separator. The two are
//! inverse to each other on segments that hold no separator.

use vstd::prelude::*;
use vstd::std_specs::iter::IteratorSpec;

verus! {

broadcast use vstd::string::group_string_axioms;

/// The reserved character that joins the segments of a route.
pub const SEPARATOR: char = '/';

/// Whether `text` holds the separator anywhere.
pub open spec fn has_separator(text: Seq<char>) -> bool {
    text.contains(SEPARATOR)
}

/// Whether every segment is free of the separator.
pub open spec fn separator_free(segments: Seq<Seq<char>>) -> bool {
    forall|i: int| 0 <= i < segments.len() ==> !has_separator(#[trigger] segments[i])
}

/// The topic string of a route: its segments with one separator between
/// each two neighbours. The empty route has the empty text.
pub open spec fn route_text(segments: Seq<Seq<char>>) -> Seq<char>
    decreases segments.len(),
{
    if segments.len() == 0 {
        Seq::empty()
    } else if segments.len() == 1 {
        segments[0]
    } else {
        route_text(segments.drop_last()) + seq![SEPARATOR] + segments.last()
    }
}

/// The segments of a topic string: the pieces between its separators, in
/// order. A text with `k` separators has `k + 1` segments, some of which may
/// be empty.
pub open spec fn route_segments(text: Seq<char>) -> Seq<Seq<char>>
    decreases text.len(),
{
    if text.len() == 0 {
        seq![Seq::empty()]
    } else {
        let before = route_segments(text.drop_last());
        if text.last() == SEPARATOR {
            before.push(Seq::empty())
        } else {
            before.drop_last().push(before.last().push(text.last()))
        }
    }
}

/// The character views of a slice of string slices.
pub open spec fn segment_views(segments: Seq<&str>) -> Seq<Seq<char>> {
    Seq::new(segments.len(), |i: int| segments[i]@)
}

/// Every text has at least one segment.
pub proof fn lemma_segments_nonempty(text: Seq<char>)
    ensures
        route_segments(text).len() >= 1,
    decreases text.len(),
{
    if text.len() > 0 {
        lemma_segments_nonempty(text.drop_last());
    }
}

/// A prefix of a text never has more segments than the text.
pub proof fn lemma_segments_prefix(text: Seq<char>, upto: int)
    requires
        0 <= upto <= text.len(),
    ensures
        route_segments(text.take(upto)).len() <= route_segments(text).len(),
    decreases text.len(),
{
    if upto == text.len() {
        assert(text.take(upto) =~= text);
    } else {
        lemma_segments_prefix(text.drop_last(), upto);
        lemma_segments_nonempty(text.drop_last());
        assert(text.drop_last().take(upto) =~= text.take(upto));
    }
}

/// How often the separator occurs in `text`.
pub open spec fn separator_count(text: Seq<char>) -> nat {
    text.filter(|c: char| c == SEPARATOR).len()
}

/// A text has one segment more than it has separators.
pub proof fn lemma_segment_count(text: Seq<char>)
    ensures
        route_segments(text).len() == separator_count(text) + 1,
    decreases text.len(),
{
    reveal(Seq::filter);
    if text.len() > 0 {
        lemma_segment_count(text.drop_last());
        lemma_segments_nonempty(text.drop_last());
    }
}

/// Cutting `head + tail`, where `tail` holds no separator, extends the last
/// segment of `head` by `tail` and leaves the earlier segments alone.
proof fn lemma_segments_extend(head: Seq<char>, tail: Seq<char>)
    requires
        !has_separator(tail),
    ensures
        route_segments(head + tail) == route_segments(head).drop_last().push(
            route_segments(head).last() + tail,
        ),
    decreases tail.len(),
{
    lemma_segments_nonempty(head);
    let cut = route_segments(head);
    if tail.len() == 0 {
        assert(head + tail =~= head);
        assert(cut.last() + tail =~= cut.last());
        assert(cut.drop_last().push(cut.last()) =~= cut);
    } else {
        let shorter = tail.drop_last();
        assert(tail[tail.len() - 1] == tail.last());
        assert(tail.last() != SEPARATOR);
        assert forall|k: int| 0 <= k < shorter.len() implies shorter[k] != SEPARATOR by {
            assert(tail[k] == shorter[k]);
        }
        lemma_segments_extend(head, shorter);
        assert((head + tail).drop_last() =~= head + shorter);
        assert((head + tail).last() == tail.last());
        let grown = cut.drop_last().push(cut.last() + shorter);
        assert(grown.drop_last() =~= cut.drop_last());
        assert((cut.last() + shorter).push(tail.last()) =~= cut.last() + tail);
    }
}

/// Cutting a text that ends in a separator opens a new, empty segment.
proof fn lemma_segments_separator(head: Seq<char>)
    ensures
        route_segments(head + seq![SEPARATOR]) == route_segments(head).push(Seq::empty()),
{
    let text = head + seq![SEPARATOR];
    assert(text.drop_last() =~= head);
    assert(text.last() == SEPARATOR);
}

/// Parsing inverts building: a route of one or more separator-free segments
/// is recovered exactly from its topic string.
pub proof fn lemma_parse_inverts_build(segments: Seq<Seq<char>>)
    requires
        segments.len() >= 1,
        separator_free(segments),
    ensures
        route_segments(route_text(segments)) == segments,
    decreases segments.len(),
{
    let empty = Seq::<char>::empty();
    if segments.len() == 1 {
        lemma_segments_extend(empty, segments[0]);
        assert(empty + segments[0] =~= segments[0]);
        assert(route_segments(empty) =~= seq![empty]);
        assert(seq![empty].drop_last().push(empty + segments[0]) =~= segments);
    } else {
        let init = segments.drop_last();
        assert forall|i: int| 0 <= i < init.len() implies !has_separator(#[trigger] init[i]) by {
            assert(init[i] == segments[i]);
        }
        lemma_parse_inverts_build(init);
        let head = route_text(init);
        lemma_segments_separator(head);
        lemma_segments_extend(head + seq![SEPARATOR], segments.last());
        let opened = init.push(empty);
        assert(opened.drop_last() =~= init);
        assert(empty + segments.last() =~= segments.last());
        assert(init.push(segments.last()) =~= segments);
    }
}

/// Building inverts parsing: the segments of any text are separator-free and
/// join back to that text.
pub proof fn lemma_build_inverts_parse(text: Seq<char>)
    ensures
        separator_free(route_segments(text)),
        route_text(route_segments(text)) == text,
    decreases text.len(),
{
    let empty = Seq::<char>::empty();
    if text.len() == 0 {
        assert(route_segments(text) =~= seq![empty]);
        assert(text =~= empty);
        assert forall|k: int| 0 <= k < empty.len() implies empty[k] != SEPARATOR by {}
    } else {
        let shorter = text.drop_last();
        lemma_build_inverts_parse(shorter);
        lemma_segments_nonempty(shorter);
        let before = route_segments(shorter);
        let after = route_segments(text);
        assert(shorter.push(text.last()) =~= text);
        if text.last() == SEPARATOR {
            assert(after.drop_last() =~= before);
            assert(route_text(after) =~= shorter + seq![SEPARATOR] + empty);
        } else {
            let grown = before.last().push(text.last());
            assert forall|i: int| 0 <= i < after.len() implies !has_separator(
                #[trigger] after[i],
            ) by {
                if i < before.len() - 1 {
                    assert(after[i] == before[i]);
                } else {
                    assert(after[i] == grown);
                    assert(!has_separator(before[before.len() - 1]));
                    assert forall|k: int| 0 <= k < grown.len() implies grown[k] != SEPARATOR by {
                        if k < before.last().len() {
                            assert(before.last()[k] == grown[k]);
                        }
                    }
                }
            }
            if before.len() == 1 {
                assert(route_text(after) =~= shorter.push(text.last()));
            } else {
                assert(after.drop_last() =~= before.drop_last());
                assert(route_text(after) =~= route_text(before.drop_last()) + seq![SEPARATOR]
                    + grown);
                assert(route_text(before) =~= route_text(before.drop_last()) + seq![SEPARATOR]
                    + before.last());
                assert(route_text(after) =~= route_text(before).push(text.last()));
            }
        }
    }
}

/// Scans `text` once for the separator.
pub fn contains_separator(text: &str) -> (found: bool)
    ensures
        found == has_separator(text@),
{
    let mut rest = text.chars();
    let ghost mut seen: int = 0;
    loop
        invariant
            rest.obeys_prophetic_iter_laws(),
            0 <= seen <= text@.len(),
            rest.remaining() == text@.subrange(seen, text@.len() as int),
            forall|k: int| 0 <= k < seen ==> text@[k] != SEPARATOR,
        decreases text@.len() - seen,
    {
        match rest.next() {
            Some(c) => {
                if c == SEPARATOR {
                    assert(text@[seen] == SEPARATOR);
                    return true;
                }
                proof {
                    seen = seen + 1;
                }
            },
            None => {
                return false;
            },
        }
    }
}

/// Why a sequence of segments cannot be joined into a route.
#[derive(Clone, Copy, Debug, PartialEq, Eq, Structural)]
pub enum RouteError {
    /// The sequence holds no segment at all.
    EmptyRoute,
    /// The segment at `index` holds the separator; it is the first that does.
    SeparatorInSegment { index: usize },
}

/// Joins `segments` with the separator into a topic string.
///
/// The route must hold at least one segment and no segment may hold the
/// separator; [`try_build_channel_route`] checks both at run time.
pub fn build_channel_route(segments: &[&str]) -> (route: String)
    requires
        segments@.len() >= 1,
        separator_free(segment_views(segments@)),
    ensures
        route@ == route_text(segment_views(segments@)),
{
    let ghost views = segment_views(segments@);
    let mut out = String::from_str(segments[0]);
    assert(views.take(1) =~= seq![views[0]]);
    let mut i: usize = 1;
    while i < segments.len()
        invariant
            1 <= i <= segments@.len(),
            views == segment_views(segments@),
            out@ == route_text(views.take(i as int)),
        decreases segments@.len() - i,
    {
        proof {
            reveal_strlit("/");
            let next = views.take(i + 1);
            assert(next.drop_last() =~= views.take(i as int));
            assert(next.last() == segments@[i as int]@);
            assert("/"@ =~= seq![SEPARATOR]);
        }
        out.append("/");
        out.append(segments[i]);
        i += 1;
    }
    assert(views.take(i as int) =~= views);
    out
}

/// Joins `segments` into a topic string after checking that the route is
/// not empty and that no segment holds the separator.
pub fn try_build_channel_route(segments: &[&str]) -> (built: Result<String, RouteError>)
    ensures
        built is Ok <==> segments@.len() > 0 && separator_free(segment_views(segments@)),
        built matches Ok(route) ==> route@ == route_text(segment_views(segments@)),
        built matches Err(refused) ==> (refused is EmptyRoute <==> segments@.len() == 0),
        built matches Err(RouteError::SeparatorInSegment { index }) ==> {
            &&& index < segments@.len()
            &&& has_separator(segments@[index as int]@)
            &&& forall|k: int| 0 <= k < index ==> !has_separator(#[trigger] segments@[k]@)
        },
{
    if segments.len() == 0 {
        return Err(RouteError::EmptyRoute);
    }
    let ghost views = segment_views(segments@);
    let mut i: usize = 0;
    while i < segments.len()
        invariant
            i <= segments@.len(),
            views == segment_views(segments@),
            forall|k: int| 0 <= k < i ==> !has_separator(#[trigger] segments@[k]@),
        decreases segments@.len() - i,
    {
        if contains_separator(segments[i]) {
            assert(views[i as int] == segments@[i as int]@);
            return Err(RouteError::SeparatorInSegment { index: i });
        }
        i += 1;
    }
    assert forall|k: int| 0 <= k < views.len() implies !has_separator(#[trigger] views[k]) by {
        assert(views[k] == segments@[k]@);
    }
    Ok(build_channel_route(segments))
}

/// Cuts `text` at every separator and returns the segments if there are
/// exactly `N` of them. Any other number of segments is no match.
pub fn parse_channel_route<const N: usize>(text: &str) -> (parsed: Option<[&str; N]>)
    ensures
        parsed is Some <==> route_segments(text@).len() == N,
        parsed matches Some(found) ==> forall|i: int|
            0 <= i < N ==> (#[trigger] found@[i])@ == route_segments(text@)[i],
{
    let total = text.unicode_len();
    let mut buffer: [&str; N] = [""; N];
    let mut filled: usize = 0;
    let mut start: usize = 0;
    let mut pos: usize = 0;
    let mut rest = text.chars();
    proof {
        assert(text@.take(0) =~= Seq::<char>::empty());
        assert(text@.subrange(0, 0) =~= Seq::<char>::empty());
    }
    loop
        invariant_except_break
            rest.obeys_prophetic_iter_laws(),
            rest.remaining() == text@.subrange(pos as int, total as int),
        invariant
            total == text@.len(),
            start <= pos <= total,
            route_segments(text@.take(pos as int)).len() == filled + 1,
            filled + 1 <= N || (N == 0 && filled == 0),
            route_segments(text@.take(pos as int)).last() == text@.subrange(
                start as int,
                pos as int,
            ),
            forall|i: int|
                0 <= i < filled ==> (#[trigger] buffer@[i])@ == route_segments(
                    text@.take(pos as int),
                )[i],
        ensures
            pos == total,
        decreases total - pos,
    {
        match rest.next() {
            Some(c) => {
                let ghost before = route_segments(text@.take(pos as int));
                let ghost after = route_segments(text@.take(pos + 1));
                proof {
                    assert(text@.take(pos + 1).drop_last() =~= text@.take(pos as int));
                    assert(text@.take(pos + 1).last() == c);
                }
                if c == SEPARATOR {
                    if filled + 1 >= N {
                        proof {
                            lemma_segments_prefix(text@, pos + 1);
                        }
                        return None;
                    }
                    buffer[filled] = text.substring_char(start, pos);
                    filled += 1;
                    start = pos + 1;
                    proof {
                        assert(text@.subrange(pos + 1, pos + 1) =~= Seq::<char>::empty());
                    }
                } else {
                    proof {
                        assert(text@.subrange(start as int, pos as int).push(c)
                            =~= text@.subrange(start as int, pos + 1));
                    }
                }
                pos += 1;
            },
            None => {
                break ;
            },
        }
    }
    proof {
        assert(text@.take(total as int) =~= text@);
    }
    if filled + 1 != N {
        return None;
    }
    buffer[filled] = text.substring_char(start, pos);
    Some(buffer)
}

} // verus!
