//! Parsing of access-log lines in the combined log format.

use regex::Regex;
use vstd::prelude::*;

verus! {

/// `regex::Regex`, a compiled regular expression. Nothing of its inside is
/// known here.
#[verifier::external_type_specification]
#[verifier::external_body]
pub struct ExRegex(Regex);

/// `regex::Error`, the reason why a pattern was refused. Nothing of its
/// inside is known here.
#[verifier::external_type_specification]
#[verifier::external_body]
pub struct ExRegexError(regex::Error);

/// The pattern that a regular expression was compiled from.
pub uninterp spec fn regex_source(re: Regex) -> Seq<char>;

/// What the leftmost match of `pattern` in `text` captures: the text of each
/// capture group, the whole match first, with `None` for a group that took
/// no part in the match. `None` where the pattern does not match.
pub uninterp spec fn regex_captures(pattern: Seq<char>, text: Seq<char>) -> Option<
    Seq<Option<Seq<char>>>,
>;

/// Whether `pattern` is a regular expression that can be compiled.
pub uninterp spec fn regex_compiles(pattern: Seq<char>) -> bool;

/// `regex::Regex::new`: compiles `pattern`, or refuses it with an error. The
/// compiled expression keeps the pattern that it was made from.
#[verifier::external_body]
fn regex_new(pattern: &str) -> (r: Result<Regex, regex::Error>)
    ensures
        r is Ok <==> regex_compiles(pattern@),
        r matches Ok(re) ==> regex_source(re) == pattern@,
{
    Regex::new(pattern)
}

/// `regex::Regex::captures`: the capture groups of the leftmost match of the
/// expression in `text`, each handed out as an owned string.
#[verifier::external_body]
fn regex_captures_of(re: &Regex, text: &str) -> (r: Option<Vec<Option<String>>>)
    ensures
        captures_view(r) == regex_captures(regex_source(*re), text@),
{
    re.captures(text).map(|caps| caps.iter().map(|m| m.map(|m| m.as_str().to_owned())).collect())
}

/// The texts of captured groups.
pub open spec fn groups_view(groups: Seq<Option<String>>) -> Seq<Option<Seq<char>>> {
    Seq::new(
        groups.len(),
        |i: int|
            match groups[i] {
                Some(s) => Some(s@),
                None => None,
            },
    )
}

/// The texts of what a match captured, if there was a match.
pub open spec fn captures_view(captures: Option<Vec<Option<String>>>) -> Option<
    Seq<Option<Seq<char>>>,
> {
    match captures {
        Some(groups) => Some(groups_view(groups@)),
        None => None,
    }
}

/// One line of an access log in the combined format.
#[derive(PartialEq, Debug)]
pub struct ApacheCombined {
    pub ipadress: Option<String>,
    pub username: Option<String>,
    pub date: Option<String>,
    pub request: Option<String>,
    pub status: Option<String>,
    pub size: Option<String>,
    pub referer: Option<String>,
    pub useragent: Option<String>,
}

/// An `ApacheCombined` with its texts as sequences.
pub struct CombinedView {
    pub ipadress: Option<Seq<char>>,
    pub username: Option<Seq<char>>,
    pub date: Option<Seq<char>>,
    pub request: Option<Seq<char>>,
    pub status: Option<Seq<char>>,
    pub size: Option<Seq<char>>,
    pub referer: Option<Seq<char>>,
    pub useragent: Option<Seq<char>>,
}

/// The text of an optional string.
pub open spec fn text_of(s: Option<String>) -> Option<Seq<char>> {
    match s {
        Some(s) => Some(s@),
        None => None,
    }
}

impl View for ApacheCombined {
    type V = CombinedView;

    open spec fn view(&self) -> CombinedView {
        CombinedView {
            ipadress: text_of(self.ipadress),
            username: text_of(self.username),
            date: text_of(self.date),
            request: text_of(self.request),
            status: text_of(self.status),
            size: text_of(self.size),
            referer: text_of(self.referer),
            useragent: text_of(self.useragent),
        }
    }
}

/// The combined log format: address, a dash, user name, date in square
/// brackets, the quoted request that starts with its method, a status of
/// three digits, a size, and the quoted referer and user agent.
pub const COMBINED_PATTERN: &'static str =
    r#"^(\d{1,3}+\.\d{1,3}+\.\d{1,3}+\.\d{1,3}+) - ([-\w]+) \[(.+?)\] "(([A-Z]+) (.+?))" (\d{3}) (\d+) "(.+?)" "(.+?)""#;

/// The record that the captured groups of a combined-format match make: the
/// groups 1 to 4 and 7 to 10 in the order of the fields, where all of them
/// took part in the match.
pub open spec fn record_of(groups: Seq<Option<Seq<char>>>) -> Option<CombinedView> {
    if groups.len() >= 11 && groups[1] is Some && groups[2] is Some && groups[3] is Some
        && groups[4] is Some && groups[7] is Some && groups[8] is Some && groups[9] is Some
        && groups[10] is Some {
        Some(
            CombinedView {
                ipadress: groups[1],
                username: groups[2],
                date: groups[3],
                request: groups[4],
                status: groups[7],
                size: groups[8],
                referer: groups[9],
                useragent: groups[10],
            },
        )
    } else {
        None
    }
}

/// The record of a log line: that of what the combined pattern captures in
/// it, and none where the pattern does not match.
pub open spec fn parsed(log: Seq<char>) -> Option<CombinedView> {
    match regex_captures(COMBINED_PATTERN@, log) {
        Some(groups) => record_of(groups),
        None => None,
    }
}

/// The view of an optional record.
pub open spec fn record_view(r: Option<ApacheCombined>) -> Option<CombinedView> {
    match r {
        Some(rec) => Some(rec@),
        None => None,
    }
}

fn group(groups: &Vec<Option<String>>, i: usize) -> (r: Option<String>)
    requires
        i < groups@.len(),
    ensures
        text_of(r) == groups_view(groups@)[i as int],
{
    match &groups[i] {
        Some(s) => Some(s.clone()),
        None => None,
    }
}

impl ApacheCombined {
    /// The record that the captured groups of a match make.
    pub fn from_captures(groups: &Vec<Option<String>>) -> (r: Option<ApacheCombined>)
        ensures
            record_view(r) == record_of(groups_view(groups@)),
    {
        if groups.len() < 11 {
            return None;
        }
        let rec = ApacheCombined {
            ipadress: group(groups, 1),
            username: group(groups, 2),
            date: group(groups, 3),
            request: group(groups, 4),
            status: group(groups, 7),
            size: group(groups, 8),
            referer: group(groups, 9),
            useragent: group(groups, 10),
        };
        if rec.ipadress.is_none() || rec.username.is_none() || rec.date.is_none()
            || rec.request.is_none() || rec.status.is_none() || rec.size.is_none()
            || rec.referer.is_none() || rec.useragent.is_none() {
            return None;
        }
        Some(rec)
    }
}

/// A parser for log lines in the combined format, with its pattern compiled
/// once.
pub struct CombinedLogParser {
    pattern: Regex,
}

impl CombinedLogParser {
    #[verifier::type_invariant]
    spec fn inv(&self) -> bool {
        regex_source(self.pattern) == COMBINED_PATTERN@
    }

    /// Compiles the combined pattern. `None` where the pattern is refused.
    pub fn new() -> (r: Option<CombinedLogParser>)
        ensures
            r is Some <==> regex_compiles(COMBINED_PATTERN@),
    {
        match regex_new(COMBINED_PATTERN) {
            Ok(pattern) => Some(CombinedLogParser { pattern }),
            Err(_) => None,
        }
    }

    /// The record of `log`, or `None` where `log` is not in the format.
    pub fn parse(&self, log: &str) -> (r: Option<ApacheCombined>)
        ensures
            record_view(r) == parsed(log@),
    {
        proof {
            use_type_invariant(self);
        }
        match regex_captures_of(&self.pattern, log) {
            Some(groups) => ApacheCombined::from_captures(&groups),
            None => None,
        }
    }
}

/// The record of `log`, or `None` where `log` is not in the combined format
/// or the pattern could not be compiled.
pub fn parse(log: &str) -> (r: Option<ApacheCombined>)
    ensures
        record_view(r) == if regex_compiles(COMBINED_PATTERN@) {
            parsed(log@)
        } else {
            None
        },
{
    match CombinedLogParser::new() {
        Some(parser) => parser.parse(log),
        None => None,
    }
}

} // verus!
