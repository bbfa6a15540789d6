//! What the search promises as a whole.
use crate::lines;
use crate::matching;
use crate::searcher::exclusions;
use crate::searcher::queue::{self, Heard, JobQueue};
use crate::searcher::run::{
    self, Hit, NeverSuperseded, SearchJob, SearchModel, SearchStep, Superseded,
};
use crate::text;
use vstd::prelude::*;

verus! {

/// How many lines were found in the first `n` files.
pub open spec fn lines_in(files: Seq<(Seq<char>, Seq<Hit>)>, n: int) -> int
    decreases n,
{
    if n <= 0 {
        0
    } else {
        lines_in(files, n - 1) + files[n - 1].1.len()
    }
}

/// What holds of a search at every point: its total counts its lines, every file
/// it reports has one at least and no more than it may, and only the last file
/// can have gone over the bound.
pub open spec fn within_bounds(search: SearchModel, per_file: usize, in_all: usize) -> bool {
    &&& search.total == lines_in(search.files, search.files.len() as int)
    &&& forall|i: int|
        0 <= i < search.files.len() ==> 0 < (#[trigger] search.files[i]).1.len() <= per_file
    &&& search.total > 0 ==> search.total < in_all + per_file
}

proof fn lines_of_more(files: Seq<(Seq<char>, Seq<Hit>)>, more: (Seq<char>, Seq<Hit>), n: int)
    requires
        0 <= n <= files.len(),
    ensures
        lines_in(files.push(more), n) == lines_in(files, n),
    decreases n,
{
    if n > 0 {
        lines_of_more(files, more, n - 1);
    }
}

/// A search begins within its bounds.
pub proof fn a_search_begins_within_its_bounds(
    paths: Seq<Seq<char>>,
    per_file: usize,
    in_all: usize,
)
    ensures
        within_bounds(SearchModel::start(paths), per_file, in_all),
{
}

/// A search stays within its bounds, whatever a file has, as long as no more
/// lines of it are handed over than may be reported of one file.
pub proof fn a_search_stays_within_its_bounds(
    search: SearchModel,
    per_file: usize,
    in_all: usize,
    hits: Option<Seq<Hit>>,
)
    requires
        within_bounds(search, per_file, in_all),
        run::step_of(search, in_all, false) == SearchStep::Read,
        hits is Some ==> hits->0.len() <= per_file,
    ensures
        within_bounds(search.read(hits), per_file, in_all),
{
    if let Some(hits) = hits {
        if hits.len() > 0 {
            let more = (search.paths[search.at], hits);
            lines_of_more(search.files, more, search.files.len() as int);
            let after = search.files.push(more);
            assert(after[after.len() - 1] == more);
            assert forall|i: int| 0 <= i < after.len() implies 0 < (#[trigger] after[i]).1.len()
                <= per_file by {
                if i < search.files.len() {
                    assert(after[i] == search.files[i]);
                }
            }
        }
    }
}

/// A search ends: every file that is read leaves one fewer to read.
pub proof fn a_search_ends(search: SearchModel, in_all: usize, hits: Option<Seq<Hit>>)
    requires
        search.wf(),
        search.goes_on(in_all),
    ensures
        search.read(hits).wf(),
        search.read(hits).paths == search.paths,
        search.paths.len() - search.read(hits).at == search.paths.len() - search.at - 1,
{
}

/// The job that ends a search is the one that is run next: it is kept until it
/// is taken, whatever is heard meanwhile.
pub proof fn an_overtaking_job_is_kept(queue: JobQueue, job: SearchJob, later: Heard)
    requires
        !queue::overtaken(queue),
    ensures
        queue::after_look(queue, Heard::Job(job)).next == Some(job),
        queue::after_look(queue::after_look(queue, Heard::Job(job)), later).next == Some(job),
        queue::overtaken(queue::after_look(queue, Heard::Job(job))),
        queue::overtaken(queue::after_look(queue, Heard::Gone)),
        !queue::overtaken(queue::after_look(queue, Heard::Nothing)),
{
}

/// What one character of a name says in the pattern for it.
pub open spec fn says(c: char) -> Seq<char> {
    if c == '*' {
        seq!['.', '*']
    } else if c == '?' {
        seq!['.']
    } else if matching::is_meta(c) {
        seq!['\\', c]
    } else {
        seq![c]
    }
}

/// What the characters of a name say, one behind the other.
pub open spec fn all_say(name: Seq<char>) -> Seq<char>
    decreases name.len(),
{
    if name.len() == 0 {
        Seq::empty()
    } else {
        says(name[0]) + all_say(name.skip(1))
    }
}

spec fn half_says(c: char) -> Seq<char> {
    if c == '*' {
        seq!['.', '*']
    } else if matching::is_meta(c) {
        seq!['\\', c]
    } else {
        seq![c]
    }
}

spec fn all_half_say(name: Seq<char>) -> Seq<char>
    decreases name.len(),
{
    if name.len() == 0 {
        Seq::empty()
    } else {
        half_says(name[0]) + all_half_say(name.skip(1))
    }
}

spec fn escapes(c: char) -> Seq<char> {
    if matching::is_meta(c) {
        seq!['\\', c]
    } else {
        seq![c]
    }
}

proof fn escaped_from_the_front(name: Seq<char>)
    requires
        name.len() > 0,
    ensures
        matching::escaped(name) == escapes(name[0]) + matching::escaped(name.skip(1)),
    decreases name.len(),
{
    let rest = name.skip(1);
    if name.len() == 1 {
        assert(name.drop_last() =~= Seq::empty());
        assert(rest =~= Seq::empty());
        assert(matching::escaped(name.drop_last()) =~= Seq::empty());
        assert(matching::escaped(name) =~= escapes(name[0]) + matching::escaped(rest));
    } else {
        escaped_from_the_front(name.drop_last());
        assert(name.drop_last().skip(1) =~= rest.drop_last());
        assert(rest.last() == name.last());
        assert(matching::escaped(name) =~= escapes(name[0]) + matching::escaped(rest));
    }
}

/// An escaped text begins with no star and no question mark.
proof fn escaped_begins_plainly(name: Seq<char>)
    ensures
        matching::escaped(name).len() > 0 ==> matching::escaped(name)[0] != '*'
            && matching::escaped(name)[0] != '?',
{
    if name.len() > 0 {
        escaped_from_the_front(name);
    }
}

proof fn one_is_replaced(text: Seq<char>, part: Seq<char>, by: Seq<char>)
    requires
        part.len() == 2,
        text.len() >= 2,
        text[0] == part[0],
        text[1] == part[1],
    ensures
        lines::replaced(text, part, by) == by + lines::replaced(text.skip(2), part, by),
{
    assert(text.subrange(0, 2) =~= part);
}

proof fn one_is_kept(text: Seq<char>, part: Seq<char>, by: Seq<char>)
    requires
        part.len() == 2,
        text.len() >= 1,
        text[0] != part[0] || (text.len() >= 2 ==> text[1] != part[1]),
    ensures
        lines::replaced(text, part, by) == seq![text[0]] + lines::replaced(text.skip(1), part, by),
{
    if text::has_at(text, 0, part) {
        assert(text.subrange(0, 2)[0] == part[0]);
        assert(text.subrange(0, 2)[1] == part[1]);
    }
}

proof fn stars_are_replaced(name: Seq<char>)
    ensures
        lines::replaced(matching::escaped(name), seq!['\\', '*'], seq!['.', '*']) == all_half_say(
            name,
        ),
    decreases name.len(),
{
    let part = seq!['\\', '*'];
    let by = seq!['.', '*'];
    if name.len() > 0 {
        let c = name[0];
        let rest = matching::escaped(name.skip(1));
        let whole = matching::escaped(name);
        escaped_from_the_front(name);
        escaped_begins_plainly(name.skip(1));
        stars_are_replaced(name.skip(1));
        if c == '*' {
            one_is_replaced(whole, part, by);
            assert(whole.skip(2) =~= rest);
        } else {
            one_is_kept(whole, part, by);
            if matching::is_meta(c) {
                assert(whole.skip(1) =~= seq![c] + rest);
                one_is_kept(whole.skip(1), part, by);
                assert(whole.skip(1).skip(1) =~= rest);
                assert(lines::replaced(whole, part, by) =~= seq!['\\', c] + lines::replaced(
                    rest,
                    part,
                    by,
                ));
            } else {
                assert(whole.skip(1) =~= rest);
            }
        }
        assert(lines::replaced(whole, part, by) =~= half_says(c) + lines::replaced(rest, part, by));
    }
}

proof fn marks_are_replaced(name: Seq<char>)
    ensures
        lines::replaced(all_half_say(name), seq!['\\', '?'], seq!['.']) == all_say(name),
        all_half_say(name).len() > 0 ==> all_half_say(name)[0] != '?',
    decreases name.len(),
{
    let part = seq!['\\', '?'];
    let by = seq!['.'];
    if name.len() > 0 {
        let c = name[0];
        let rest = all_half_say(name.skip(1));
        let whole = all_half_say(name);
        marks_are_replaced(name.skip(1));
        assert(whole == half_says(c) + rest);
        if c == '?' {
            one_is_replaced(whole, part, by);
            assert(whole.skip(2) =~= rest);
        } else {
            one_is_kept(whole, part, by);
            if half_says(c).len() == 2 {
                assert(whole.skip(1) =~= seq![half_says(c)[1]] + rest);
                one_is_kept(whole.skip(1), part, by);
                assert(whole.skip(1).skip(1) =~= rest);
                assert(lines::replaced(whole, part, by) =~= half_says(c) + lines::replaced(
                    rest,
                    part,
                    by,
                ));
            } else {
                assert(whole.skip(1) =~= rest);
            }
        }
        assert(lines::replaced(whole, part, by) =~= says(c) + lines::replaced(rest, part, by));
    }
}

/// In the pattern for a name every character stands for itself, but that a star
/// stands for any characters and a question mark for one.
pub proof fn a_name_is_taken_by_its_characters(name: Seq<char>)
    ensures
        exclusions::name_pattern(name) == "(?i)^"@ + all_say(name) + "$"@,
{
    reveal_strlit("\\*");
    reveal_strlit("\\?");
    reveal_strlit(".*");
    reveal_strlit(".");
    assert("\\*"@ =~= seq!['\\', '*']);
    assert("\\?"@ =~= seq!['\\', '?']);
    assert(".*"@ =~= seq!['.', '*']);
    assert("."@ =~= seq!['.']);
    stars_are_replaced(name);
    marks_are_replaced(name);
}

/// A search that somebody waits for is never given up.
pub proof fn a_search_waited_for_is_not_given_up(
    search: SearchModel,
    in_all: usize,
    before: NeverSuperseded,
    after: NeverSuperseded,
    said: bool,
)
    requires
        NeverSuperseded::may_say(before, after, said),
    ensures
        run::step_of(search, in_all, said) != SearchStep::Abandoned,
{
}

} // verus!
