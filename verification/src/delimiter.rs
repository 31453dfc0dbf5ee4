use vstd::prelude::*;

use crate::errors::ConfigError;

verus! {

/// The sequence of tokens that splitting `line` by the delimiter pattern
/// `pattern` yields: the pieces of the line between matches of the pattern,
/// in order. What exactly a pattern matches is the regex engine's business;
/// the result depends on the pattern and the line alone, so it is left
/// uninterpreted here and pinned down only by the trusted wrapper below.
pub uninterp spec fn split_of(pattern: Seq<char>, line: Seq<char>) -> Seq<Seq<char>>;

/// Whether the regex engine accepts `pattern` as a well-formed delimiter
/// pattern. Which patterns compile is the engine's business and depends on
/// the pattern text alone, so it is left uninterpreted here and pinned down
/// only by the trusted wrapper below.
pub uninterp spec fn delimiter_compiles(pattern: Seq<char>) -> bool;

/// The token at column `i` of a token sequence, or `None` where the sequence
/// has no such column.
pub open spec fn column_of(tokens: Seq<Seq<char>>, i: int) -> Option<Seq<char>> {
    if 0 <= i < tokens.len() {
        Some(tokens[i])
    } else {
        None
    }
}

/// A compiled delimiter pattern, used to split lines into columns.
///
/// The private matcher is always the compilation of the private pattern
/// text; both are set together, only by [`Delimiter::new`].
pub struct Delimiter {
    re: regex::Regex,
    pattern: String,
}

#[verifier::external_type_specification]
#[verifier::external_body]
pub struct ExRegex(regex::Regex);

impl View for Delimiter {
    type V = Seq<char>;

    closed spec fn view(&self) -> Seq<char> {
        self.pattern@
    }
}

impl Delimiter {
    /// Relies on `regex::Regex::new`: whether a pattern compiles depends on
    /// the pattern text alone, named `delimiter_compiles` here; a pattern
    /// that does compile yields a matcher for exactly the text given, and a
    /// malformed one is reported as an error, mapped to `None` here.
    #[verifier::external_body]
    fn compile(pattern: &str) -> (r: Option<Delimiter>)
        ensures
            r is Some <==> delimiter_compiles(pattern@),
            r matches Some(d) ==> d@ == pattern@,
    {
        match regex::Regex::new(pattern) {
            Ok(re) => Some(Delimiter { re, pattern: pattern.to_string() }),
            Err(_) => None,
        }
    }

    /// Compiles a delimiter pattern, or reports it as malformed: the result
    /// is `Ok` exactly when the engine accepts the pattern.
    pub fn new(pattern: &str) -> (r: Result<Delimiter, ConfigError>)
        ensures
            r is Ok <==> delimiter_compiles(pattern@),
            r matches Ok(d) ==> d@ == pattern@,
            r matches Err(e) ==> e == ConfigError::BadDelimiter,
    {
        match Delimiter::compile(pattern) {
            Some(d) => Ok(d),
            None => Err(ConfigError::BadDelimiter),
        }
    }

    /// Relies on `regex::Regex::split`: yields the parts of the line that
    /// are not matched by the pattern, in order, a function of the pattern
    /// and the line alone; named `split_of` here.
    #[verifier::external_body]
    pub(crate) fn split(&self, line: &str) -> (r: Vec<String>)
        ensures
            r@.map_values(|t: String| t@) == split_of(self@, line@),
    {
        self.re.split(line).map(|t| t.to_string()).collect()
    }
}

/// Splits `line` by the delimiter and returns the token at the requested
/// zero-based column, or `None` where the split yields no such column.
///
/// Pure in the sense of the data model: extraction neither reads nor touches
/// any assignment state.
pub fn extract_column(line: &str, delimiter: &Delimiter, column: u32) -> (r: Option<String>)
    ensures
        match r {
            Some(t) => column_of(split_of(delimiter@, line@), column as int) == Some(t@),
            None => column_of(split_of(delimiter@, line@), column as int) is None,
        },
{
    let mut tokens = delimiter.split(line);
    if (column as usize) < tokens.len() {
        let t = tokens.remove(column as usize);
        Some(t)
    } else {
        None
    }
}

} // verus!
