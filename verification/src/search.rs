//! A verified line search: given a query and the contents of a file, return
//! the lines that contain the query, with an optional case-insensitive mode.

use vstd::prelude::*;
use crate::text::{contains_seq, contains_substr, lines_of, split_lines, views_of};

verus! {

/// What a run of the search tool was asked to do: the query string, the
/// file to search, and whether matching is case-sensitive.
pub struct Config {
    pub query: String,
    pub filename: String,
    pub case_sensitive: bool,
}

impl Config {
    /// Builds a configuration from the command-line arguments (the first
    /// argument is the program name) and the case-insensitivity toggle.
    /// Fails exactly when fewer than two real arguments were given.
    pub fn new(args: &Vec<String>, case_insensitive: bool) -> (r: Result<Config, &'static str>)
        ensures
            match r {
                Ok(c) => args@.len() >= 3 && c.query@ == args@[1]@ && c.filename@ == args@[2]@
                    && c.case_sensitive == !case_insensitive,
                Err(e) => args@.len() < 3 && e@ == "not enough arguments"@,
            },
    {
        if args.len() < 3 {
            return Err("not enough arguments");
        }
        let query = args[1].clone();
        let filename = args[2].clone();
        Ok(Config { query, filename, case_sensitive: !case_insensitive })
    }
}

/// The lines of `contents` that contain `query`, in order.
pub fn search(query: &str, contents: &str) -> (r: Vec<String>)
    ensures
        views_of(r@) == lines_of(contents@).filter(|l: Seq<char>| contains_seq(l, query@)),
{
    let ghost pred = |l: Seq<char>| contains_seq(l, query@);
    let lines = split_lines(contents);
    let mut result: Vec<String> = Vec::new();
    let n = lines.len();
    proof {
        reveal(Seq::filter);
        assert(views_of(lines@.take(0)) =~= Seq::<Seq<char>>::empty());
        assert(views_of(result@) =~= Seq::<Seq<char>>::empty());
    }
    let mut i: usize = 0;
    while i < n
        invariant
            n == lines@.len(),
            i <= n,
            views_of(lines@) == lines_of(contents@),
            pred == (|l: Seq<char>| contains_seq(l, query@)),
            views_of(result@) == views_of(lines@.take(i as int)).filter(pred),
        decreases n - i,
    {
        let line = &lines[i];
        let ghost old_views = views_of(result@);
        if contains_substr(line.as_str(), query) {
            result.push(line.clone());
            proof {
                assert(views_of(result@) =~= old_views.push(line@));
            }
        }
        proof {
            reveal(Seq::filter);
            let taken = lines@.take(i + 1);
            assert(taken.drop_last() =~= lines@.take(i as int));
            assert(taken.last() == lines@[i as int]);
            assert(views_of(taken).drop_last() =~= views_of(lines@.take(i as int)));
            assert(views_of(taken).last() == lines@[i as int]@);
            assert(pred(lines@[i as int]@) == contains_seq(lines@[i as int]@, query@));
        }
        i += 1;
    }
    proof {
        assert(lines@.take(n as int) =~= lines@);
    }
    result
}

/// What `str::to_lowercase` returns: a function of the characters alone.
pub uninterp spec fn lower_of(s: Seq<char>) -> Seq<char>;

/// Relies on str::to_lowercase: the lowercase form of a string depends on
/// its characters alone, and an empty string stays empty.
#[verifier::external_body]
fn lowercase(s: &str) -> (r: String)
    ensures
        r@ == lower_of(s@),
        s@.len() == 0 ==> r@.len() == 0,
{
    s.to_lowercase()
}

/// The lines of `contents` whose lowercase form contains the lowercase form
/// of `query`, in order. Lines are returned as they stand in `contents`,
/// not lowered.
pub fn search_case_insensitive(query: &str, contents: &str) -> (r: Vec<String>)
    ensures
        views_of(r@) == lines_of(contents@).filter(
            |l: Seq<char>| contains_seq(lower_of(l), lower_of(query@)),
        ),
{
    let ghost pred = |l: Seq<char>| contains_seq(lower_of(l), lower_of(query@));
    let lower_query = lowercase(query);
    let lines = split_lines(contents);
    let mut result: Vec<String> = Vec::new();
    let n = lines.len();
    proof {
        reveal(Seq::filter);
        assert(views_of(lines@.take(0)) =~= Seq::<Seq<char>>::empty());
        assert(views_of(result@) =~= Seq::<Seq<char>>::empty());
    }
    let mut i: usize = 0;
    while i < n
        invariant
            n == lines@.len(),
            i <= n,
            views_of(lines@) == lines_of(contents@),
            lower_query@ == lower_of(query@),
            pred == (|l: Seq<char>| contains_seq(lower_of(l), lower_of(query@))),
            views_of(result@) == views_of(lines@.take(i as int)).filter(pred),
        decreases n - i,
    {
        let line = &lines[i];
        let lower_line = lowercase(line.as_str());
        let ghost old_views = views_of(result@);
        if contains_substr(lower_line.as_str(), lower_query.as_str()) {
            result.push(line.clone());
            proof {
                assert(views_of(result@) =~= old_views.push(line@));
            }
        }
        proof {
            reveal(Seq::filter);
            let taken = lines@.take(i + 1);
            assert(taken.drop_last() =~= lines@.take(i as int));
            assert(taken.last() == lines@[i as int]);
            assert(views_of(taken).drop_last() =~= views_of(lines@.take(i as int)));
            assert(views_of(taken).last() == lines@[i as int]@);
            assert(pred(lines@[i as int]@) == contains_seq(
                lower_of(lines@[i as int]@),
                lower_of(query@),
            ));
        }
        i += 1;
    }
    proof {
        assert(lines@.take(n as int) =~= lines@);
    }
    result
}

/// Runs the search that `config` asks for over `contents`: case-sensitive
/// or case-insensitive, as configured.
pub fn run_search(config: &Config, contents: &str) -> (r: Vec<String>)
    ensures
        config.case_sensitive ==> views_of(r@) == lines_of(contents@).filter(
            |l: Seq<char>| contains_seq(l, config.query@),
        ),
        !config.case_sensitive ==> views_of(r@) == lines_of(contents@).filter(
            |l: Seq<char>| contains_seq(lower_of(l), lower_of(config.query@)),
        ),
{
    if config.case_sensitive {
        search(config.query.as_str(), contents)
    } else {
        search_case_insensitive(config.query.as_str(), contents)
    }
}

} // verus!
