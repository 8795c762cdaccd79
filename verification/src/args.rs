//! Screening of what the operator passes in: the thread addresses and the
//! requested number of simultaneous downloads.

use vstd::prelude::*;
use vstd::string::StringExecFns;
use crate::number::{parse_usize, spec_parse_usize};

verus! {

/// The message for a download count of zero.
pub open spec fn zero_count_message() -> Seq<char> {
    "CONCURRENT UPLOADS cannot be zero"@
}

/// The message for a download count that is no unsigned numeral.
pub open spec fn bad_count_message() -> Seq<char> {
    "CONCURRENT UPLOADS must be a positive integer"@
}

/// The verdict on a requested download count: accepted where it denotes a
/// positive integer, else the message that says what is wrong with it.
pub open spec fn spec_is_positive_int(text: Seq<char>) -> Result<(), Seq<char>> {
    match spec_parse_usize(text) {
        Some(count) => if count == 0 {
            Err(zero_count_message())
        } else {
            Ok(())
        },
        None => Err(bad_count_message()),
    }
}

/// Accepts `n` where it denotes a positive integer that fits the machine,
/// and says what is wrong with it where it does not.
pub fn is_positive_int(n: String) -> (verdict: Result<(), String>)
    ensures
        match verdict {
            Ok(_) => spec_is_positive_int(n@) is Ok,
            Err(message) => spec_is_positive_int(n@) == Err::<(), Seq<char>>(message@),
        },
{
    match parse_usize(n.as_str()) {
        Some(count) => {
            if count == 0 {
                Err(String::from_str("CONCURRENT UPLOADS cannot be zero"))
            } else {
                Ok(())
            }
        },
        None => Err(String::from_str("CONCURRENT UPLOADS must be a positive integer")),
    }
}

/// The number of simultaneous downloads to run: the requested count where
/// one was given and denotes a positive integer, else `fallback`.
pub open spec fn spec_concurrency(requested: Option<Seq<char>>, fallback: usize) -> usize {
    match requested {
        Some(text) => match spec_parse_usize(text) {
            Some(count) => if count == 0 {
                fallback
            } else {
                count
            },
            None => fallback,
        },
        None => fallback,
    }
}

/// The text of an optional string.
pub open spec fn optional_text(text: Option<&str>) -> Option<Seq<char>> {
    match text {
        Some(text) => Some(text@),
        None => None,
    }
}

/// The number of simultaneous downloads to run, with `fallback` for a
/// request that is missing or unusable.
pub fn concurrency_or(requested: Option<&str>, fallback: usize) -> (count: usize)
    ensures
        count == spec_concurrency(optional_text(requested), fallback),
{
    match requested {
        Some(text) => match parse_usize(text) {
            Some(count) => if count == 0 {
                fallback
            } else {
                count
            },
            None => fallback,
        },
        None => fallback,
    }
}

/// `num_cpus::get` reports the number of logical processors that this
/// process may use. Its documentation promises a count of at least one, and
/// that is all the contract claims.
pub assume_specification[ num_cpus::get ]() -> (count: usize)
    ensures
        count >= 1,
;

/// The number of simultaneous downloads to run: the requested count where
/// one was given and denotes a positive integer, else the number of
/// processors at hand. The result is never zero.
pub fn effective_concurrency(requested: Option<&str>) -> (count: usize)
    ensures
        count >= 1,
        exists|processors: usize|
            processors >= 1 && count == #[trigger] spec_concurrency(
                optional_text(requested),
                processors,
            ),
{
    let processors = num_cpus::get();
    concurrency_or(requested, processors)
}

/// The shape of a thread address, as a regular expression.
pub open spec fn url_pattern() -> Seq<char> {
    "https?://boards.4chan.org/\\S+/thread/\\d+/\\S+"@
}

/// `pattern` is a regular expression that can be compiled.
pub uninterp spec fn regex_compiles(pattern: Seq<char>) -> bool;

/// The regular expression `pattern` matches somewhere in `text`.
pub uninterp spec fn regex_is_match(pattern: Seq<char>, text: Seq<char>) -> bool;

/// Compiles `pattern` with `regex::Regex::new` and searches `text` with
/// `regex::Regex::is_match`.
///
/// Nothing is proved of this function. The contract gives names to whether
/// the pattern compiles and to whether it matches, both of which the two
/// strings determine; `None` stands for a pattern that does not compile.
#[verifier::external_body]
fn search(pattern: &str, text: &str) -> (found: Option<bool>)
    ensures
        found == if regex_compiles(pattern@) {
            Some(regex_is_match(pattern@, text@))
        } else {
            None::<bool>
        },
{
    match regex::Regex::new(pattern) {
        Ok(compiled) => Some(compiled.is_match(text)),
        Err(_) => None,
    }
}

/// The outcome of a search for the thread address pattern in `text`.
pub open spec fn spec_search(text: Seq<char>) -> Option<bool> {
    if regex_compiles(url_pattern()) {
        Some(regex_is_match(url_pattern(), text))
    } else {
        None
    }
}

/// An argument is a thread address where the pattern of such addresses
/// matches in it.
pub open spec fn is_thread_url(text: Seq<char>) -> bool {
    spec_search(text) == Some(true)
}

/// The verdict on an argument, given the outcome of the search for the
/// pattern in it: valid only where the search ran and found a match.
pub fn verdict_of(found: Option<bool>) -> (valid: bool)
    ensures
        valid == (found == Some(true)),
{
    match found {
        Some(matched) => matched,
        None => false,
    }
}

/// Whether `arg` is a thread address.
pub fn validate_arg(arg: &str) -> (valid: bool)
    ensures
        valid == is_thread_url(arg@),
{
    verdict_of(search("https?://boards.4chan.org/\\S+/thread/\\d+/\\S+", arg))
}

/// The notice for an argument that is no thread address.
pub open spec fn invalid_url_notice(arg: Seq<char>) -> Seq<char> {
    "Invalid URL: "@ + arg
}

/// The outcome of screening the arguments.
#[derive(Debug, PartialEq, Eq)]
pub struct Screening {
    /// The arguments that are thread addresses, in the order given.
    pub accepted: Vec<String>,
    /// One notice for each argument that is none, in the order given.
    pub notices: Vec<String>,
}

/// The mathematical value of a [`Screening`].
pub ghost struct ScreeningView {
    pub accepted: Seq<Seq<char>>,
    pub notices: Seq<Seq<char>>,
}

impl View for Screening {
    type V = ScreeningView;

    open spec fn view(&self) -> ScreeningView {
        ScreeningView {
            accepted: self.accepted.deep_view(),
            notices: self.notices.deep_view(),
        }
    }
}

/// The screening with one more argument: a valid one is accepted, an
/// invalid one leaves a notice.
pub open spec fn spec_record(earlier: ScreeningView, arg: Seq<char>, valid: bool)
    -> ScreeningView {
    if valid {
        ScreeningView { accepted: earlier.accepted.push(arg), notices: earlier.notices }
    } else {
        ScreeningView {
            accepted: earlier.accepted,
            notices: earlier.notices.push(invalid_url_notice(arg)),
        }
    }
}

/// The screening of a sequence of arguments.
pub open spec fn spec_screen(args: Seq<Seq<char>>) -> ScreeningView
    decreases args.len(),
{
    if args.len() == 0 {
        ScreeningView { accepted: Seq::empty(), notices: Seq::empty() }
    } else {
        spec_record(spec_screen(args.drop_last()), args.last(), is_thread_url(args.last()))
    }
}

impl Screening {
    /// The screening of no arguments.
    pub fn new() -> (empty: Screening)
        ensures
            empty@ == spec_screen(Seq::empty()),
    {
        let empty = Screening { accepted: Vec::new(), notices: Vec::new() };
        assert(empty@.accepted =~= Seq::empty());
        assert(empty@.notices =~= Seq::empty());
        empty
    }

    /// Adds the argument `arg` with its verdict.
    pub fn record(&mut self, arg: &str, valid: bool)
        ensures
            final(self)@ == spec_record(old(self)@, arg@, valid),
    {
        if valid {
            self.accepted.push(String::from_str(arg));
            assert(self@.accepted =~= old(self)@.accepted.push(arg@));
        } else {
            self.notices.push(String::from_str("Invalid URL: ").concat(arg));
            assert(self@.notices =~= old(self)@.notices.push(invalid_url_notice(arg@)));
        }
    }
}

/// Screens the arguments: the thread addresses among them are accepted, and
/// each of the others leaves a notice for the operator.
pub fn screen_arguments(args: &Vec<String>) -> (screening: Screening)
    ensures
        screening@ == spec_screen(args.deep_view()),
{
    let mut screening = Screening::new();
    let ghost texts = args.deep_view();
    assert(texts.take(0) =~= Seq::empty());
    for i in 0..args.len()
        invariant
            texts == args.deep_view(),
            screening@ == spec_screen(texts.take(i as int)),
    {
        let arg = args[i].as_str();
        let valid = validate_arg(arg);
        screening.record(arg, valid);
        proof {
            assert(texts.take(i + 1).drop_last() =~= texts.take(i as int));
            assert(texts.take(i + 1).last() == arg@);
        }
    }
    assert(texts.take(args.len() as int) =~= texts);
    screening
}

} // verus!
