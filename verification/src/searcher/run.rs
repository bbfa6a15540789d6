//! One search, file by file.
use crate::lines;
use vstd::prelude::*;

verus! {

/// One search of a folder, with everything it is allowed to spend.
pub struct SearchJob {
    pub exclusions: String,
    pub root: String,
    pub needle: String,
    /// Which search this is, counting up.
    pub generation: u64,
    /// The most files to read.
    pub files: usize,
    /// The most lines to report from any one file, and in all.
    pub hits_per_file: usize,
    pub hits_in_all: usize,
    /// A file with more characters is passed over.
    pub characters: usize,
}

/// A line that the needle is in.
#[derive(Clone, Copy, Debug, PartialEq, Eq, Structural)]
pub struct Hit {
    pub line: usize,
}

/// One file that the needle is in, and where in it.
pub struct FileHits {
    pub path: String,
    pub hits: Vec<Hit>,
}

/// What one search found: the matches, not the rows of a list.
pub struct SearchOutcome {
    pub generation: u64,
    pub needle: String,
    pub files: Vec<FileHits>,
    /// Lines in all.
    pub total: usize,
}

/// Asked between files: whether a newer question has come.
pub trait Superseded: Sized {
    /// What may be answered: in one state, which another follows.
    open spec fn may_say(before: Self, after: Self, said: bool) -> bool {
        true
    }

    fn superseded(&mut self) -> (out: bool)
        ensures
            Self::may_say(*old(self), *final(self), out),
    ;
}

/// Nothing supersedes a search that somebody waits for.
pub struct NeverSuperseded;

impl Superseded for NeverSuperseded {
    open spec fn may_say(before: Self, after: Self, said: bool) -> bool {
        !said
    }

    fn superseded(&mut self) -> (out: bool) {
        false
    }
}

/// A search that is going on: the files to read, how many have been, and what
/// was found in them.
pub struct Search {
    pub paths: Vec<String>,
    pub at: usize,
    pub files: Vec<FileHits>,
    pub total: usize,
}

/// What a search does next.
#[derive(Clone, Copy, Debug, PartialEq, Eq, Structural)]
pub enum SearchStep {
    /// The next file is read.
    Read,
    /// Every file was read that the search may read.
    Done,
    /// A newer question has come: nothing is reported.
    Abandoned,
}

pub ghost struct SearchModel {
    pub paths: Seq<Seq<char>>,
    pub at: int,
    pub files: Seq<(Seq<char>, Seq<Hit>)>,
    pub total: int,
}

impl View for FileHits {
    type V = (Seq<char>, Seq<Hit>);

    open spec fn view(&self) -> (Seq<char>, Seq<Hit>) {
        (self.path@, self.hits@)
    }
}

pub open spec fn found(files: Seq<FileHits>) -> Seq<(Seq<char>, Seq<Hit>)> {
    Seq::new(files.len(), |i: int| files[i]@)
}

impl View for Search {
    type V = SearchModel;

    open spec fn view(&self) -> SearchModel {
        SearchModel {
            paths: Seq::new(self.paths@.len(), |i: int| self.paths@[i]@),
            at: self.at as int,
            files: found(self.files@),
            total: self.total as int,
        }
    }
}

impl SearchModel {
    pub open spec fn start(paths: Seq<Seq<char>>) -> SearchModel {
        SearchModel { paths, at: 0, files: Seq::empty(), total: 0 }
    }

    pub open spec fn wf(self) -> bool {
        0 <= self.at <= self.paths.len() && 0 <= self.total
    }

    /// Another file is to be read. The bound is read before a file, not within
    /// it.
    pub open spec fn goes_on(self, in_all: usize) -> bool {
        self.at < self.paths.len() && self.total < in_all
    }

    /// The search after one more file, of which the lines are known where it
    /// could be read.
    pub open spec fn read(self, hits: Option<Seq<Hit>>) -> SearchModel {
        let next = SearchModel { at: self.at + 1, ..self };
        match hits {
            Some(hits) => if hits.len() == 0 {
                next
            } else {
                SearchModel {
                    files: self.files.push((self.paths[self.at], hits)),
                    total: self.total + hits.len(),
                    ..next
                }
            },
            None => next,
        }
    }
}

pub open spec fn hits_of(hits: Option<Vec<Hit>>) -> Option<Seq<Hit>> {
    match hits {
        Some(held) => Some(held@),
        None => None,
    }
}

pub open spec fn step_of(search: SearchModel, in_all: usize, superseded: bool) -> SearchStep {
    if !search.goes_on(in_all) {
        SearchStep::Done
    } else if superseded {
        SearchStep::Abandoned
    } else {
        SearchStep::Read
    }
}

impl Search {
    /// A search of these files, in this order.
    pub fn start(paths: Vec<String>) -> (out: Self)
        ensures
            out@ == SearchModel::start(Seq::new(paths@.len(), |i: int| paths@[i]@)),
            out@.wf(),
    {
        let out = Search { paths, at: 0, files: Vec::new(), total: 0 };
        assert(out@.files =~= Seq::empty());
        out
    }

    /// What the search does next, where it is known whether a newer question has
    /// come.
    pub fn next_by(&self, job: &SearchJob, superseded: bool) -> (out: SearchStep)
        ensures
            out == step_of(self@, job.hits_in_all, superseded),
    {
        if self.at >= self.paths.len() || self.total >= job.hits_in_all {
            SearchStep::Done
        } else if superseded {
            SearchStep::Abandoned
        } else {
            SearchStep::Read
        }
    }

    /// What the search does next. `stop` is asked only where another file is to
    /// be read, and what it says is what is done.
    pub fn next<S: Superseded>(&self, job: &SearchJob, stop: &mut S) -> (out: SearchStep)
        ensures
            self@.goes_on(job.hits_in_all) ==> exists|said: bool| #[trigger]
                S::may_say(*old(stop), *final(stop), said) && out == step_of(
                    self@,
                    job.hits_in_all,
                    said,
                ),
            !self@.goes_on(job.hits_in_all) ==> out == SearchStep::Done && *final(stop) == *old(
                stop,
            ),
    {
        if self.at >= self.paths.len() || self.total >= job.hits_in_all {
            return SearchStep::Done;
        }
        let superseded = stop.superseded();
        self.next_by(job, superseded)
    }

    /// The file that is read next.
    pub fn path(&self) -> (out: &String)
        requires
            self@.at < self@.paths.len(),
        ensures
            out@ == self@.paths[self@.at],
    {
        &self.paths[self.at]
    }

    /// Takes what the file has; nothing where it could not be read.
    pub fn read(&mut self, hits: Option<Vec<Hit>>)
        requires
            old(self)@.wf(),
            old(self)@.at < old(self)@.paths.len(),
            hits is Some ==> old(self)@.total + hits->0@.len() <= usize::MAX,
        ensures
            final(self)@ == old(self)@.read(hits_of(hits)),
            final(self)@.wf(),
    {
        let ghost before = self@;
        assert(self.at < self.paths.len());
        if let Some(hits) = hits {
            if hits.len() > 0 {
                self.total += hits.len();
                let one = FileHits { path: self.paths[self.at].clone(), hits };
                let ghost new = one@;
                self.files.push(one);
                assert(found(self.files@) =~= before.files.push(new));
            }
        }
        self.at += 1;
        assert(self@.paths =~= before.paths);
    }

    /// What is reported of a search that is done.
    pub fn finish(self, job: &SearchJob) -> (out: SearchOutcome)
        ensures
            out.generation == job.generation,
            out.needle@ == job.needle@,
            found(out.files@) == self@.files,
            out.total as int == self@.total,
    {
        SearchOutcome {
            generation: job.generation,
            needle: job.needle.clone(),
            files: self.files,
            total: self.total,
        }
    }
}

/// The first `limit` of the first `n` lines that hold a needle, counted from 1.
pub open spec fn lines_with(lines: Seq<Seq<char>>, needle: Seq<char>, limit: usize, n: int) -> Seq<
    Hit,
>
    decreases n,
{
    if n <= 0 {
        Seq::empty()
    } else {
        let before = lines_with(lines, needle, limit, n - 1);
        if before.len() < limit && lines::holds_part(lines[n - 1], needle) {
            before.push(Hit { line: n as usize })
        } else {
            before
        }
    }
}

/// The lines of a text that hold a needle, as many as may be reported.
pub fn hits_in(text: &str, needle: &str, limit: usize) -> (out: Vec<Hit>)
    ensures
        out@ == lines_with(
            lines::split(text@, '\n'),
            needle@,
            limit,
            lines::split(text@, '\n').len() as int,
        ),
        out@.len() <= limit,
{
    let parts = lines::split_at(text, '\n');
    let ghost all = lines::split(text@, '\n');
    let mut out: Vec<Hit> = Vec::new();
    let mut at: usize = 0;
    while at < parts.len()
        invariant
            at <= parts@.len(),
            lines::texts(parts@) == all,
            out@ == lines_with(all, needle@, limit, at as int),
            out@.len() <= limit,
        decreases parts@.len() - at,
    {
        assert(all[at as int] == parts@[at as int]@);
        if out.len() < limit && lines::has_part(parts[at].as_str(), needle) {
            out.push(Hit { line: at + 1 });
        }
        at += 1;
    }
    out
}

} // verus!
