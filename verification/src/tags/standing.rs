//! Where the tags of a document stand.
use crate::tags::finding::{self, Place, TagModel};
use crate::tags::laws;
use crate::tags::name;
use crate::text;
use crate::text_blocks::{self, LineStyle};
use vstd::prelude::*;

verus! {

/// A name that is listed before the text.
pub open spec fn is_listed(text: Seq<char>, place: Place) -> bool {
    place.0 == place.1 && name::is_name(text, place.1, place.2)
}

/// A hash with a name behind it.
pub open spec fn is_marked(text: Seq<char>, place: Place) -> bool {
    place.1 == place.0 + 1 && text[place.0] == '#' && name::is_name(text, place.1, place.2)
}

/// The places lie between two others, one behind the other.
spec fn in_turn(found: Seq<Place>, from: int, to: int) -> bool {
    &&& forall|i: int|
        0 <= i < found.len() ==> from <= (#[trigger] found[i]).0 <= found[i].2 <= to
    &&& forall|i: int, j: int|
        0 <= i < j < found.len() ==> (#[trigger] found[i]).2 <= (#[trigger] found[j]).0
}

proof fn turns_add(one: Seq<Place>, two: Seq<Place>, from: int, mid: int, to: int)
    requires
        from <= mid <= to,
        in_turn(one, from, mid),
        in_turn(two, mid, to),
    ensures
        in_turn(one + two, from, to),
{
    let all = one + two;
    assert forall|i: int| 0 <= i < all.len() implies from <= (#[trigger] all[i]).0 <= all[i].2
        <= to by {
        if i < one.len() {
            assert(all[i] == one[i]);
        } else {
            assert(all[i] == two[i - one.len()]);
        }
    }
    assert forall|i: int, j: int| 0 <= i < j < all.len() implies (#[trigger] all[i]).2 <= (
    #[trigger] all[j]).0 by {
        if j < one.len() {
            assert(all[i] == one[i] && all[j] == one[j]);
        } else if i < one.len() {
            assert(all[i] == one[i] && all[j] == two[j - one.len()]);
        } else {
            assert(all[i] == two[i - one.len()] && all[j] == two[j - one.len()]);
        }
    }
}

proof fn turns_widen(found: Seq<Place>, from: int, to: int, wide_from: int, wide_to: int)
    requires
        in_turn(found, from, to),
        wide_from <= from,
        to <= wide_to,
    ensures
        in_turn(found, wide_from, wide_to),
{
}

spec fn all_listed(text: Seq<char>, found: Seq<Place>) -> bool {
    forall|i: int| 0 <= i < found.len() ==> is_listed(text, #[trigger] found[i])
}

spec fn all_marked(text: Seq<char>, found: Seq<Place>) -> bool {
    forall|i: int| 0 <= i < found.len() ==> is_marked(text, #[trigger] found[i])
}

proof fn an_item_stands(text: Seq<char>, from: int, to: int)
    requires
        0 <= from <= to,
    ensures
        in_turn(finding::item_found(text, from, to), from, to),
        all_listed(text, finding::item_found(text, from, to)),
{
    finding::trimmed_is_within(text, from, to);
    let outer = text::trimmed(text, from, to);
    let bare = finding::unquoted(text, outer.0, outer.1);
    finding::trimmed_is_within(text, bare.0, bare.1);
    let inner = text::trimmed(text, bare.0, bare.1);
    let start = if inner.0 < inner.1 && text[inner.0] == '#' {
        inner.0 + 1
    } else {
        inner.0
    };
    finding::strokes_are_behind(text, start, inner.1);
}

proof fn items_stand(text: Seq<char>, from: int, to: int)
    requires
        0 <= from <= to,
    ensures
        in_turn(finding::items_found(text, from, to), from, to),
        all_listed(text, finding::items_found(text, from, to)),
    decreases to - from,
{
    finding::separator_is_behind(text, from, to);
    let end = finding::next_separator(text, from, to);
    an_item_stands(text, from, to);
    an_item_stands(text, from, end);
    if end < to {
        items_stand(text, end + 1, to);
        let one = finding::item_found(text, from, end);
        let rest = finding::items_found(text, end + 1, to);
        let all = finding::items_found(text, from, to);
        turns_widen(rest, end + 1, to, end, to);
        turns_add(one, rest, from, end, to);
        assert forall|i: int| 0 <= i < all.len() implies is_listed(text, #[trigger] all[i]) by {
            if i < one.len() {
                assert(all[i] == one[i]);
            } else {
                assert(all[i] == rest[i - one.len()]);
            }
        }
    }
}

proof fn a_front_line_stands(text: Seq<char>, from: int, to: int, listing: bool)
    requires
        0 <= from <= to,
    ensures
        in_turn(finding::front_line(text, from, to, listing).0, from, to),
        all_listed(text, finding::front_line(text, from, to, listing).0),
{
    finding::skip_is_within(text, from, to);
    if let Some(start) = finding::dash_item(text, from, to) {
        an_item_stands(text, start, to);
        turns_widen(finding::item_found(text, start, to), start, to, from, to);
    }
    finding::colon_is_within(text, from, to);
    if let Some(colon) = finding::colon_at(text, from, to) {
        finding::trimmed_is_within(text, colon + 1, to);
    }
    if let Some(value) = finding::listed_value(text, from, to) {
        if value.0 < value.1 {
            let (start, end) = finding::unbracketed(text, value.0, value.1);
            items_stand(text, start, end);
            turns_widen(finding::items_found(text, start, end), start, end, from, to);
        }
    }
}

proof fn the_front_stands(text: Seq<char>, n: int)
    requires
        n <= text_blocks::lines(text).len(),
    ensures
        in_turn(
            finding::front_to(text, n).0,
            0,
            if n <= 1 {
                0
            } else {
                text_blocks::lines(text)[n - 1].1
            },
        ),
        all_listed(text, finding::front_to(text, n).0),
    decreases n,
{
    if n > 1 {
        the_front_stands(text, n - 1);
        text_blocks::lines_follow(text);
        let (from, to) = text_blocks::lines(text)[n - 1];
        assert(text_blocks::lines(text)[n - 2].1 + 1 == text_blocks::lines(text)[n - 2 + 1].0);
        let before = finding::front_to(text, n - 1);
        let more = finding::front_line(text, from, to, before.1).0;
        a_front_line_stands(text, from, to, before.1);
        turns_widen(
            before.0,
            0,
            if n <= 2 {
                0
            } else {
                text_blocks::lines(text)[n - 2].1
            },
            0,
            from,
        );
        turns_add(before.0, more, 0, from, to);
        let all = finding::front_to(text, n).0;
        assert forall|i: int| 0 <= i < all.len() implies is_listed(text, #[trigger] all[i]) by {
            if i < before.0.len() {
                assert(all[i] == before.0[i]);
            } else {
                assert(all[i] == more[i - before.0.len()]);
            }
        }
    }
}

proof fn the_body_stands(text: Seq<char>, start: int, styles: Seq<LineStyle>, n: int)
    requires
        0 <= start <= text.len(),
        n <= text_blocks::lines(text).len(),
    ensures
        ({
            let found = finding::body_to(text, start, styles, n);
            let end = if n <= 0 {
                0
            } else {
                text_blocks::lines(text)[n - 1].1
            };
            &&& forall|i: int| 0 <= i < found.len() ==> start <= (#[trigger] found[i]).0
            &&& in_turn(found, 0, end)
            &&& all_marked(text, found)
        }),
    decreases n,
{
    if n > 0 {
        the_body_stands(text, start, styles, n - 1);
        text_blocks::lines_follow(text);
        let (from, to) = text_blocks::lines(text)[n - 1];
        let before = finding::body_to(text, start, styles, n - 1);
        let all = finding::body_to(text, start, styles, n);
        let end = if n <= 1 {
            0
        } else {
            text_blocks::lines(text)[n - 2].1
        };
        if n > 1 {
            assert(text_blocks::lines(text)[n - 2].1 + 1 == text_blocks::lines(text)[n - 2
                + 1].0);
        }
        if from >= start && finding::is_read(
            text,
            from,
            to,
            finding::style_at(styles, n - 1),
        ) {
            let more = finding::line_found(text, from, to, None);
            laws::every_tag_is_one(text, from, from, to);
            assert(in_turn(more, from, to)) by {
                assert forall|i: int| 0 <= i < more.len() implies from <= (
                #[trigger] more[i]).0 <= more[i].2 <= to by {
                    assert(laws::is_line_tag(text, from, to, more[i]));
                }
            }
            turns_widen(before, 0, end, 0, from);
            turns_add(before, more, 0, from, to);
            assert forall|i: int| 0 <= i < all.len() implies is_marked(text, #[trigger] all[i])
                && start <= all[i].0 by {
                if i < before.len() {
                    assert(all[i] == before[i]);
                } else {
                    assert(all[i] == more[i - before.len()]);
                    assert(laws::is_line_tag(text, from, to, more[i - before.len()]));
                }
            }
        } else {
            turns_widen(before, 0, end, 0, to);
        }
    }
}

/// A tag at its place: what stands there is its name, and in the text a hash before
/// it.
pub open spec fn stands(source: Seq<char>, start: int, place: Place) -> bool {
    &&& 0 <= place.0 <= place.1 < place.2 <= source.len()
    &&& name::is_name(source, place.1, place.2)
    &&& if place.0 < start {
        place.2 <= start && place.1 == place.0
    } else {
        place.1 == place.0 + 1 && source[place.0] == '#'
    }
}

/// Every tag stands where it is found: before the text a name, in the text a hash
/// and a name. They are found in the order in which they stand, and none lies within
/// another.
#[verifier::rlimit(30)]
pub proof fn every_tag_stands(source: Seq<char>, start: int, styles: Seq<LineStyle>)
    requires
        0 <= start <= source.len(),
    ensures
        ({
            let found = finding::found_in(source, start, styles);
            &&& forall|i: int| 0 <= i < found.len() ==> stands(source, start, #[trigger] found[i])
            &&& forall|i: int, j: int|
                0 <= i < j < found.len() ==> (#[trigger] found[i]).2 <= (#[trigger] found[j]).0
        }),
{
    let head = source.take(start);
    let lines = text_blocks::lines(head).len() as int;
    let count = text_blocks::lines(source).len() as int;
    text_blocks::lines_follow(head);
    text_blocks::lines_follow(source);
    the_front_stands(head, lines);
    the_body_stands(source, start, styles, count);
    let front = finding::front_found(head);
    let body = finding::body_to(source, start, styles, count);
    let found = finding::found_in(source, start, styles);
    turns_widen(
        front,
        0,
        if lines <= 1 {
            0
        } else {
            text_blocks::lines(head)[lines - 1].1
        },
        0,
        start,
    );
    assert forall|i: int| 0 <= i < found.len() implies stands(
        source,
        start,
        #[trigger] found[i],
    ) by {
        if i < front.len() {
            let place = front[i];
            assert(found[i] == place);
            assert(is_listed(head, place));
            a_name_stays(head, source, place.1, place.2);
        } else {
            assert(found[i] == body[i - front.len()]);
        }
    }
    assert forall|i: int, j: int| 0 <= i < j < found.len() implies (#[trigger] found[i]).2 <= (
    #[trigger] found[j]).0 by {
        if j < front.len() {
            assert(found[i] == front[i] && found[j] == front[j]);
        } else if i < front.len() {
            assert(found[i] == front[i] && found[j] == body[j - front.len()]);
        } else {
            assert(found[i] == body[i - front.len()] && found[j] == body[j - front.len()]);
        }
    }
}

proof fn a_name_stays(head: Seq<char>, source: Seq<char>, from: int, to: int)
    requires
        head == source.take(head.len() as int),
        head.len() <= source.len(),
        0 <= from <= to <= head.len(),
        name::is_name(head, from, to),
    ensures
        name::is_name(source, from, to),
{
    assert forall|i: int| from <= i < to implies name::is_tag(#[trigger] source[i]) by {
        assert(head[i] == source[i]);
    }
    let i = choose|i: int| from <= i < to && name::says_something(#[trigger] head[i]);
    assert(head[i] == source[i]);
}

/// The bytes that a tag is said to take are its name, and in the text its hash and
/// its name.
pub open spec fn spells(source: Seq<char>, start: int, tag: TagModel) -> bool {
    let from = text::chars_before(source, tag.at);
    let to = text::chars_before(source, tag.at + tag.len);
    &&& from is Some && to is Some
    &&& 0 <= from->0 < to->0 <= source.len()
    &&& source.subrange(from->0, to->0) == if from->0 < start {
        tag.name
    } else {
        seq!['#'] + tag.name
    }
}

/// The tags that are reported are spelled in the document where they are said to
/// stand, each behind the one before it. The tag over a byte is the one whose bytes
/// hold it, and there is none where there is none.
#[verifier::rlimit(30)]
pub proof fn every_tag_is_spelled(
    source: Seq<char>,
    start: int,
    styles: Seq<LineStyle>,
    byte: int,
)
    requires
        0 <= start <= source.len(),
    ensures
        ({
            let tags = finding::tag_models(source, finding::found_in(source, start, styles));
            &&& forall|i: int| 0 <= i < tags.len() ==> spells(source, start, #[trigger] tags[i])
            &&& forall|i: int| 0 <= i < tags.len() ==> (#[trigger] tags[i]).len > 0
            &&& forall|i: int, j: int|
                0 <= i < j < tags.len() ==> (#[trigger] tags[i]).at + tags[i].len <= (
                #[trigger] tags[j]).at
            &&& forall|i: int|
                0 <= i < tags.len() && (#[trigger] tags[i]).at <= byte < tags[i].at + tags[i].len
                    ==> finding::tag_over(tags, byte, 0) == Some(i)
            &&& (forall|i: int|
                0 <= i < tags.len() ==> !((#[trigger] tags[i]).at <= byte < tags[i].at
                    + tags[i].len)) ==> finding::tag_over(tags, byte, 0) is None
        }),
{
    let found = finding::found_in(source, start, styles);
    let tags = finding::tag_models(source, found);
    every_tag_stands(source, start, styles);
    assert forall|i: int| 0 <= i < tags.len() implies spells(source, start, #[trigger] tags[i])
        && tags[i].len > 0 && tags[i].at + tags[i].len == text::size(source.take(found[i].2)) by {
        let place = found[i];
        assert(stands(source, start, place));
        text::size_leads_back(source, place.0);
        text::size_leads_back(source, place.2);
        text::size_of_part(source, place.0, place.2);
        text::size_counts(source.subrange(place.0, place.2));
        if place.0 >= start {
            assert(source.subrange(place.0, place.2) =~= seq!['#'] + tags[i].name);
        }
    }
    assert forall|i: int, j: int| 0 <= i < j < tags.len() implies (#[trigger] tags[i]).at
        + tags[i].len <= (#[trigger] tags[j]).at by {
        assert(stands(source, start, found[i]));
        assert(stands(source, start, found[j]));
        text::size_of_part(source, found[i].2, found[j].0);
    }
    assert forall|i: int|
        0 <= i < tags.len() && (#[trigger] tags[i]).at <= byte < tags[i].at + tags[i].len implies
        finding::tag_over(tags, byte, 0) == Some(i) by {
        the_one_over(tags, byte, 0, i);
    }
    none_over(tags, byte, 0);
}

proof fn the_one_over(tags: Seq<TagModel>, byte: int, from: int, at: int)
    requires
        0 <= from <= at < tags.len(),
        tags[at].at <= byte < tags[at].at + tags[at].len,
        forall|i: int, j: int|
            0 <= i < j < tags.len() ==> (#[trigger] tags[i]).at + tags[i].len <= (
            #[trigger] tags[j]).at,
    ensures
        finding::tag_over(tags, byte, from) == Some(at),
    decreases at - from,
{
    if from < at {
        assert(tags[from].at + tags[from].len <= tags[at].at);
        the_one_over(tags, byte, from + 1, at);
    }
}

proof fn none_over(tags: Seq<TagModel>, byte: int, from: int)
    ensures
        (forall|i: int|
            from <= i < tags.len() ==> !((#[trigger] tags[i]).at <= byte < tags[i].at
                + tags[i].len)) ==> finding::tag_over(tags, byte, from) is None,
    decreases tags.len() - from,
{
    if 0 <= from < tags.len() {
        none_over(tags, byte, from + 1);
    }
}

} // verus!
