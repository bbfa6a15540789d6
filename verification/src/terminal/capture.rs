//! Output collected while it is written.
use crate::rows::{add_row, drop_row, has_row, lift_rows, no_rows, scroll_rows};
use crate::terminal::cell::Line;
use crate::terminal::model::CaptureModel;
use crate::text::{push_text, strip_start};
use std::collections::BTreeSet;
use vstd::prelude::*;

verus! {

/// Output being collected; see [`CaptureModel`] for its parts.
#[derive(Debug)]
pub(crate) struct CapturedOutput {
    pub(crate) first_row: usize,
    pub(crate) touched: BTreeSet<usize>,
    pub(crate) completed: String,
    pub(crate) wrapped: String,
    pub(crate) initial: String,
}

impl View for CapturedOutput {
    type V = CaptureModel;

    open(crate) spec fn view(&self) -> CaptureModel {
        CaptureModel {
            first_row: self.first_row,
            touched: self.touched@,
            completed: self.completed@,
            wrapped: self.wrapped@,
            initial: self.initial@,
        }
    }
}

impl CapturedOutput {
    pub(crate) fn start(row: usize, standing: String) -> (out: Self)
        ensures
            out@ == CaptureModel::from(row, standing@),
    {
        CapturedOutput {
            first_row: row,
            touched: no_rows(),
            completed: String::new(),
            wrapped: String::new(),
            initial: standing,
        }
    }

    pub(crate) fn touching(&mut self, row: usize)
        ensures
            final(self)@ == old(self)@.touching(row),
    {
        add_row(&mut self.touched, row);
    }

    pub(crate) fn commit(&mut self, row: usize, changed_only: bool, line: &Line)
        requires
            row < usize::MAX,
        ensures
            final(self)@ == old(self)@.commit(row, changed_only, line@),
    {
        if row < self.first_row || (changed_only && !has_row(&self.touched, row)) {
            return;
        }
        self.first_row = row + 1;
        drop_row(&mut self.touched, row);
        let text = line.logical_text();
        push_text(&mut self.wrapped, text.as_str());
        if !line.wrapped {
            let fresh = strip_start(self.wrapped.as_str(), self.initial.as_str());
            if !fresh.as_str().is_empty() || self.initial.as_str().is_empty() {
                push_text(&mut self.completed, fresh.as_str());
                self.completed.push('\n');
            }
            self.wrapped.clear();
            self.initial.clear();
        }
        assert(self@ =~= old(self)@.commit(row, changed_only, line@));
    }

    pub(crate) fn scrolled(&mut self, top: usize, bottom: usize, by: usize)
        requires
            top <= bottom,
            by <= bottom - top + 1,
        ensures
            final(self)@ == old(self)@.scrolled(top, bottom, by),
    {
        if top == 0 {
            self.first_row = self.first_row.saturating_sub(by);
        }
        self.touched = scroll_rows(&self.touched, top, bottom, by);
        assert(self@ =~= old(self)@.scrolled(top, bottom, by));
    }

    pub(crate) fn cut(&mut self, by: usize)
        ensures
            final(self)@ == old(self)@.cut(by as int),
    {
        self.first_row = self.first_row.saturating_sub(by);
        self.touched = lift_rows(&self.touched, by);
    }

    pub(crate) fn restarted(&mut self)
        ensures
            final(self)@ == old(self)@.restarted(),
    {
        self.first_row = 0;
        self.touched = no_rows();
        self.wrapped.clear();
        self.initial.clear();
    }

    /// The finished lines and the one being written; the finished ones are
    /// handed over.
    pub(crate) fn update(&mut self, row: usize, text: &str) -> (out: (String, String))
        ensures
            out.0@ == old(self)@.completed,
            out.1@ == old(self)@.tail(row, text@),
            final(self)@ == old(self)@.handed_over(),
    {
        let mut completed = String::new();
        std::mem::swap(&mut completed, &mut self.completed);
        if row < self.first_row || (self.wrapped.as_str().is_empty() && !has_row(
            &self.touched,
            row,
        )) {
            return (completed, String::new());
        }
        let mut pending = self.wrapped.clone();
        push_text(&mut pending, text);
        let rest = strip_start(pending.as_str(), self.initial.as_str());
        (completed, rest)
    }
}

} // verus!
