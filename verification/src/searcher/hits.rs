//! What a search finds, by the texts themselves.
use crate::lines;
use crate::searcher::exclusions;
use crate::searcher::run::{self, Hit, SearchModel, SearchStep};
use crate::text;
use vstd::prelude::*;

verus! {

/// The needle stands somewhere in the line.
pub open spec fn stands_in(line: Seq<char>, needle: Seq<char>) -> bool {
    exists|i: int|
        0 <= i <= line.len() - needle.len() && #[trigger] line.subrange(i, i + needle.len())
            == needle
}

/// How many of the first `n` lines the needle stands in.
pub open spec fn holders(lines: Seq<Seq<char>>, needle: Seq<char>, n: int) -> int
    decreases n,
{
    if n <= 0 {
        0
    } else {
        holders(lines, needle, n - 1) + if stands_in(lines[n - 1], needle) {
            1int
        } else {
            0int
        }
    }
}

proof fn standing_is_holding(line: Seq<char>, needle: Seq<char>)
    ensures
        lines::holds_part(line, needle) == stands_in(line, needle),
{
    if lines::holds_part(line, needle) {
        let i = choose|i: int| #[trigger] text::has_at(line, i, needle);
        assert(line.subrange(i, i + needle.len()) == needle);
    }
    if stands_in(line, needle) {
        let i = choose|i: int|
            0 <= i <= line.len() - needle.len() && #[trigger] line.subrange(i, i + needle.len())
                == needle;
        assert(text::has_at(line, i, needle));
    }
}

proof fn the_first_lines_are_hits(
    all: Seq<Seq<char>>,
    needle: Seq<char>,
    limit: usize,
    n: int,
)
    requires
        0 <= n <= all.len() <= usize::MAX,
    ensures
        ({
            let hits = run::lines_with(all, needle, limit, n);
            &&& hits.len() == if holders(all, needle, n) < limit {
                holders(all, needle, n)
            } else {
                limit as int
            }
            &&& forall|k: int|
                0 <= k < n ==> (hits.contains(Hit { line: (k + 1) as usize }) <==> stands_in(
                    #[trigger] all[k],
                    needle,
                ) && holders(all, needle, k) < limit)
            &&& forall|j: int|
                0 <= j < hits.len() ==> 1 <= (#[trigger] hits[j]).line <= n
            &&& forall|i: int, j: int|
                0 <= i < j < hits.len() ==> (#[trigger] hits[i]).line < (#[trigger] hits[j]).line
        }),
    decreases n,
{
    if n > 0 {
        the_first_lines_are_hits(all, needle, limit, n - 1);
        standing_is_holding(all[n - 1], needle);
        let before = run::lines_with(all, needle, limit, n - 1);
        let hits = run::lines_with(all, needle, limit, n);
        assert forall|k: int| 0 <= k < n implies (hits.contains(Hit { line: (k + 1) as usize })
            <==> stands_in(#[trigger] all[k], needle) && holders(all, needle, k) < limit) by {
            let one = Hit { line: (k + 1) as usize };
            if before.contains(one) {
                let j = choose|j: int| 0 <= j < before.len() && before[j] == one;
                assert(hits[j] == one);
                assert(before[j].line <= n - 1);
            }
            if hits.contains(one) {
                let j = choose|j: int| 0 <= j < hits.len() && hits[j] == one;
                if j < before.len() {
                    assert(before[j] == one);
                    assert(before.contains(one));
                    assert(before[j].line <= n - 1);
                    assert(k < n - 1);
                    assert(stands_in(all[k], needle));
                } else {
                    assert(hits[j] == Hit { line: n as usize });
                    assert(k == n - 1);
                    assert(stands_in(all[k], needle));
                }
            }
            if k == n - 1 && hits.len() > before.len() {
                assert(hits[before.len() as int] == one);
            }
        }
    }
}

/// A line is found if and only if the needle stands somewhere in it and fewer lines
/// before it than may be reported hold it. The lines are counted from 1, and the
/// numbers of those that are found rise.
pub proof fn every_line_with_the_needle_is_found(text: Seq<char>, needle: Seq<char>, limit: usize)
    requires
        lines::split(text, '\n').len() <= usize::MAX,
    ensures
        ({
            let all = lines::split(text, '\n');
            let hits = run::lines_with(all, needle, limit, all.len() as int);
            &&& forall|k: int|
                0 <= k < all.len() ==> (hits.contains(Hit { line: (k + 1) as usize }) <==> stands_in(
                    #[trigger] all[k],
                    needle,
                ) && holders(all, needle, k) < limit)
            &&& forall|j: int|
                0 <= j < hits.len() ==> 1 <= (#[trigger] hits[j]).line <= all.len()
            &&& forall|i: int, j: int|
                0 <= i < j < hits.len() ==> (#[trigger] hits[i]).line < (#[trigger] hits[j]).line
            &&& hits.len() == if holders(all, needle, all.len() as int) < limit {
                holders(all, needle, all.len() as int)
            } else {
                limit as int
            }
        }),
{
    let all = lines::split(text, '\n');
    the_first_lines_are_hits(all, needle, limit, all.len() as int);
}

/// The search goes on as long as a file is left and the lines found are fewer than may
/// be reported in all, and is given up only where it would have gone on.
pub proof fn a_search_goes_on_while_it_may(
    search: SearchModel,
    in_all: usize,
    superseded: bool,
)
    ensures
        run::step_of(search, in_all, superseded) == SearchStep::Read <==> search.at
            < search.paths.len() && search.total < in_all && !superseded,
        run::step_of(search, in_all, superseded) == SearchStep::Done <==> search.at
            >= search.paths.len() || search.total >= in_all,
        run::step_of(search, in_all, superseded) == SearchStep::Abandoned <==> search.at
            < search.paths.len() && search.total < in_all && superseded,
{
}

/// A file with lines is reported behind the others, under its own path and with all of
/// them, and they are counted; a file without, or one that could not be read, is
/// not. Either way the next file is next.
pub proof fn a_file_with_lines_is_reported(search: SearchModel, hits: Option<Seq<Hit>>)
    requires
        0 <= search.at < search.paths.len(),
    ensures
        ({
            let after = search.read(hits);
            &&& after.at == search.at + 1
            &&& after.paths == search.paths
            &&& hits is Some && hits->0.len() > 0 ==> after.files.len() == search.files.len() + 1
                && after.files.last().0 == search.paths[search.at] && after.files.last().1
                == hits->0 && after.total == search.total + hits->0.len()
            &&& forall|i: int|
                0 <= i < search.files.len() ==> after.files[i] == #[trigger] search.files[i]
            &&& hits is None || hits->0.len() == 0 ==> after.files == search.files && after.total
                == search.total
        }),
{
}

proof fn strokes_go(text: Seq<char>)
    ensures
        ({
            let name = exclusions::without_strokes(text);
            &&& name.len() <= text.len()
            &&& name == text.take(name.len() as int)
            &&& name.len() > 0 ==> name.last() != '/' && name.last() != '\\'
            &&& forall|i: int|
                name.len() <= i < text.len() ==> #[trigger] text[i] == '/' || text[i] == '\\'
        }),
    decreases text.len(),
{
    if text.len() > 0 && exclusions::is_stroke(text.last()) {
        let less = text.drop_last();
        strokes_go(less);
        let name = exclusions::without_strokes(text);
        assert(less.take(name.len() as int) =~= text.take(name.len() as int));
        assert forall|i: int| name.len() <= i < text.len() implies #[trigger] text[i] == '/'
            || text[i] == '\\' by {
            if i < less.len() {
                assert(less[i] == text[i]);
            }
        }
    } else {
        assert(text.take(text.len() as int) =~= text);
    }
}

/// A part of the list of exclusions leaves out the name that it holds, without the white
/// space around it and the strokes at its end; one that ends in a stroke leaves out
/// folders alone.
pub proof fn an_exclusion_is_its_name(part: Seq<char>)
    ensures
        match exclusions::exclusion_of(part) {
            Some((pattern, folders)) => {
                let held = lines::trim(part);
                &&& held.len() > 0
                &&& folders == (held.last() == '/' || held.last() == '\\')
                &&& exists|n: int|
                    0 <= n <= held.len() && pattern == exclusions::name_pattern(
                        #[trigger] held.take(n),
                    ) && (n > 0 ==> held[n - 1] != '/' && held[n - 1] != '\\') && forall|i: int|
                        n <= i < held.len() ==> #[trigger] held[i] == '/' || held[i] == '\\'
            },
            None => true,
        },
{
    let held = lines::trim(part);
    strokes_go(held);
    let n = exclusions::without_strokes(held).len() as int;
    assert(exclusions::without_strokes(held) == held.take(n));
    if n > 0 {
        assert(held.take(n).last() == held[n - 1]);
    }
}

/// A name is left out exactly where one of the patterns finds it, and a pattern for
/// folders finds only folders.
pub proof fn a_name_is_left_out_by_a_pattern(
    patterns: Seq<(Seq<char>, bool)>,
    name: Seq<char>,
    folder: bool,
)
    ensures
        exclusions::leaves_out(patterns, name, folder) <==> exists|i: int|
            #![trigger patterns[i]]
            0 <= i < patterns.len() && (folder || !patterns[i].1) && crate::matching::regex_takes(
                patterns[i].0,
            ) && crate::matching::regex_finds(patterns[i].0, name),
{
    if exclusions::leaves_out(patterns, name, folder) {
        let i = choose|i: int| #[trigger] exclusions::leaves_out_by(patterns, i, name, folder);
        assert(patterns[i] == patterns[i]);
    }
    assert forall|i: int|
        #![trigger patterns[i]]
        0 <= i < patterns.len() && (folder || !patterns[i].1) && crate::matching::regex_takes(
            patterns[i].0,
        ) && crate::matching::regex_finds(
            patterns[i].0,
            name,
        ) implies exclusions::leaves_out(patterns, name, folder) by {
        assert(exclusions::leaves_out_by(patterns, i, name, folder));
    }
}

/// Every part of the list that is taken leaves something out.
pub proof fn every_part_is_listed(parts: Seq<Seq<char>>, n: int)
    requires
        0 <= n <= parts.len(),
    ensures
        forall|i: int|
            0 <= i < n && (#[trigger] exclusions::exclusion_of(parts[i])) is Some
                ==> exclusions::exclusions_of(parts, n).contains(
                exclusions::exclusion_of(parts[i])->0,
            ),
        forall|k: int|
            0 <= k < exclusions::exclusions_of(parts, n).len() ==> exists|i: int|
                0 <= i < n && #[trigger] exclusions::exclusion_of(parts[i]) == Some(
                    #[trigger] exclusions::exclusions_of(parts, n)[k],
                ),
    decreases n,
{
    if n > 0 {
        every_part_is_listed(parts, n - 1);
        let before = exclusions::exclusions_of(parts, n - 1);
        let after = exclusions::exclusions_of(parts, n);
        assert forall|i: int|
            0 <= i < n && (#[trigger] exclusions::exclusion_of(
                parts[i],
            )) is Some implies after.contains(exclusions::exclusion_of(parts[i])->0) by {
            let one = exclusions::exclusion_of(parts[i])->0;
            if i < n - 1 {
                let k = choose|k: int| 0 <= k < before.len() && before[k] == one;
                assert(after[k] == one);
            } else {
                assert(after[before.len() as int] == one);
            }
        }
        assert forall|k: int| 0 <= k < after.len() implies exists|i: int|
            0 <= i < n && #[trigger] exclusions::exclusion_of(parts[i]) == Some(
                #[trigger] after[k],
            ) by {
            if k < before.len() {
                assert(after[k] == before[k]);
                let i = choose|i: int|
                    0 <= i < n - 1 && #[trigger] exclusions::exclusion_of(parts[i]) == Some(
                        before[k],
                    );
                assert(exclusions::exclusion_of(parts[i]) == Some(after[k]));
            } else {
                assert(exclusions::exclusion_of(parts[n - 1]) == Some(after[k]));
            }
        }
    }
}

} // verus!
