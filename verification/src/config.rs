//! What one invocation asks for, and the numbered list it is answered
//! with.

use crate::search::{found_lines, search, search_case_insensitive};
use crate::text::line_views;
use vstd::prelude::*;

verus! {

/// The query, the name of the text source and the case policy of one
/// invocation.
#[derive(Debug)]
pub struct Config {
    pub query: String,
    pub filename: String,
    pub case_insensitive: bool,
}

impl Config {
    /// The lines of `text` that this configuration selects: under its
    /// case policy, those that hold its query.
    pub open spec fn selected_lines(&self, text: Seq<char>) -> Seq<Seq<char>> {
        found_lines(self.query@, text, self.case_insensitive)
    }

    /// Reads the configuration from the arguments of the program, the
    /// program's own name first, and from whether the flag that asks
    /// for a case-sensitive search is present. With fewer than two
    /// arguments after the program's name there is no configuration.
    /// The search ignores case unless the flag is present.
    pub fn new(args: &[String], flag_present: bool) -> (made: Result<Config, &'static str>)
        ensures
            made is Err <==> args@.len() < 3,
            made is Err ==> made->Err_0@ == "Not enough arguments!"@,
            made is Ok ==> {
                &&& made->Ok_0.query@ == args@[1]@
                &&& made->Ok_0.filename@ == args@[2]@
                &&& made->Ok_0.case_insensitive == !flag_present
            },
    {
        if args.len() < 3 {
            return Err("Not enough arguments!");
        }
        let query = args[1].clone();
        let filename = args[2].clone();
        let case_insensitive = !flag_present;
        Ok(Config { query, filename, case_insensitive })
    }
}

/// Searches `contents` as `config` asks and numbers the matches from 1
/// in the order found. The number counts matches, not lines of the
/// text.
pub fn run<'a>(config: Config, contents: &'a str) -> (numbered: Vec<(usize, &'a str)>)
    ensures
        numbered@.len() == config.selected_lines(contents@).len(),
        forall|i: int|
            0 <= i < numbered@.len() ==> {
                &&& (#[trigger] numbered@[i]).0 == i + 1
                &&& numbered@[i].1@ == config.selected_lines(contents@)[i]
            },
{
    let results = if config.case_insensitive {
        search_case_insensitive(config.query.as_str(), contents)
    } else {
        search(config.query.as_str(), contents)
    };
    let mut numbered: Vec<(usize, &'a str)> = Vec::new();
    let mut i: usize = 0;
    while i < results.len()
        invariant
            i <= results.len(),
            numbered@.len() == i,
            forall|k: int|
                0 <= k < i ==> {
                    &&& (#[trigger] numbered@[k]).0 == k + 1
                    &&& numbered@[k].1 == results@[k]
                },
        decreases results.len() - i,
    {
        numbered.push((i + 1, results[i]));
        i += 1;
    }
    proof {
        let chosen = config.selected_lines(contents@);
        assert(line_views(results@) == chosen);
        assert forall|k: int| 0 <= k < numbered@.len() implies numbered@[k].1@ == chosen[k] by {
            assert(line_views(results@)[k] == results@[k]@);
        }
    }
    numbered
}

} // verus!
