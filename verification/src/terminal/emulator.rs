//! A screen and the parser that feeds it.
use crate::terminal::model::ScreenModel;
use crate::terminal::parser::Parser;
use crate::terminal::screen::Screen;
use crate::terminal::stream::ParserModel;
use vstd::prelude::*;

verus! {

/// A screen and the parser that feeds it.
#[derive(Debug)]
pub struct Terminal {
    pub screen: Screen,
    pub parser: Parser,
}

impl Terminal {
    pub open spec fn wf(self) -> bool {
        self.parser@.wf() && self.screen@.wf()
    }

    pub fn new(columns: usize, rows: usize) -> (out: Self)
        ensures
            out.screen@ == ScreenModel::blank(columns, rows),
            out.parser@ == ParserModel::start(),
            out.wf(),
    {
        Terminal { screen: Screen::new(columns, rows), parser: Parser::new() }
    }

    /// Read what the shell wrote. Any split is allowed: the parser resumes.
    pub fn feed(&mut self, bytes: &[u8])
        requires
            old(self).wf(),
            old(self).parser@.all_fit(old(self).screen@.columns, old(self).screen@.rows, bytes@),
        ensures
            final(self).screen@ == old(self).parser@.screen_after(old(self).screen@, bytes@),
            final(self).parser@ == old(self).parser@.after(bytes@),
            final(self).wf(),
            final(self).screen@.columns == old(self).screen@.columns,
            final(self).screen@.rows == old(self).screen@.rows,
    {
        self.parser.feed(bytes, &mut self.screen);
    }
}

} // verus!
