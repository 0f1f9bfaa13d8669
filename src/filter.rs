//! Which functions are shown: an ownership prefix, the choice to include
//! functions of other crates, and an optional pattern on the name.

use vstd::prelude::*;
use crate::text::{chars_of, is_white_space, is_white_space_char};

verus! {

#[verifier::external_type_specification]
#[verifier::external_body]
pub struct ExRegex(regex::Regex);

/// Whether the regular expression `pattern` matches somewhere in `text`,
/// as `regex::Regex::is_match` decides on a compiled `pattern`.
pub uninterp spec fn regex_matches(pattern: Seq<char>, text: Seq<char>) -> bool;

/// Whether `regex::Regex::new` accepts `pattern`.
pub uninterp spec fn regex_compiles(pattern: Seq<char>) -> bool;

/// Relies on `regex::Regex::new`, whose success depends on the pattern
/// alone; its error is turned into its message.
#[verifier::external_body]
fn compile_regex(pattern: &str) -> (r: Result<regex::Regex, String>)
    ensures
        r is Ok <==> regex_compiles(pattern@),
{
    regex::Regex::new(pattern).map_err(|e| e.to_string())
}

/// A compiled regular expression together with the text it was compiled
/// from. The fields are private and set only by `NamePattern::new`, so the
/// compiled form always belongs to `source`.
pub struct NamePattern {
    source: String,
    regex: regex::Regex,
}

/// Errors in building the filter.
#[derive(Debug, Clone, PartialEq, Eq)]
pub enum FilterError {
    /// The name pattern is not a valid regular expression; the message says why.
    InvalidPattern { message: String },
}

impl View for NamePattern {
    type V = Seq<char>;

    closed spec fn view(&self) -> Seq<char> {
        self.source@
    }
}

impl NamePattern {
    /// Compiles `pattern`. The error is `InvalidPattern` exactly when the
    /// regular expression engine refuses it.
    pub fn new(pattern: &str) -> (r: Result<NamePattern, FilterError>)
        ensures
            r is Ok <==> regex_compiles(pattern@),
            r is Ok ==> r->Ok_0@ == pattern@,
            r is Err ==> r->Err_0 is InvalidPattern,
    {
        match compile_regex(pattern) {
            Ok(regex) => Ok(NamePattern { source: String::from_str(pattern), regex }),
            Err(message) => Err(FilterError::InvalidPattern { message }),
        }
    }

    /// The text the pattern was compiled from.
    pub fn as_str(&self) -> (r: &str)
        ensures
            r@ == self@,
    {
        self.source.as_str()
    }

    /// Relies on `regex::Regex::is_match`, on the expression that `new`
    /// compiled from `source`.
    #[verifier::external_body]
    fn is_match(&self, text: &str) -> (r: bool)
        ensures
            r == regex_matches(self@, text@),
    {
        self.regex.is_match(text)
    }
}

/// The mathematical form of the criteria.
pub struct CriteriaSpec {
    pub pattern: Option<Seq<char>>,
    pub ownership_prefix: Seq<char>,
    pub include_foreign: bool,
}

/// Whether a function with demangled name `name` is shown.
pub open spec fn accepts(c: CriteriaSpec, name: Seq<char>) -> bool {
    &&& (c.include_foreign || c.ownership_prefix.is_prefix_of(name))
    &&& match c.pattern {
        Some(p) => regex_matches(p, name),
        None => true,
    }
}

/// The criteria that decide which functions are shown.
pub struct FilterCriteria {
    name_pattern: Option<NamePattern>,
    ownership_prefix: String,
    include_foreign: bool,
}

impl View for FilterCriteria {
    type V = CriteriaSpec;

    closed spec fn view(&self) -> CriteriaSpec {
        CriteriaSpec {
            pattern: match self.name_pattern {
                Some(p) => Some(p@),
                None => None,
            },
            ownership_prefix: self.ownership_prefix@,
            include_foreign: self.include_foreign,
        }
    }
}

impl FilterCriteria {
    /// Builds the criteria; without a pattern every name matches. Fails,
    /// before anything is processed, where the pattern does not compile.
    pub fn new(name_pattern: Option<&str>, ownership_prefix: &str, include_foreign: bool) -> (r:
        Result<FilterCriteria, FilterError>)
        ensures
            r is Ok ==> r->Ok_0@ == (CriteriaSpec {
                pattern: match name_pattern {
                    Some(p) => Some(p@),
                    None => None,
                },
                ownership_prefix: ownership_prefix@,
                include_foreign,
            }),
            r is Ok <==> match name_pattern {
                Some(p) => regex_compiles(p@),
                None => true,
            },
            r is Err ==> name_pattern is Some && r->Err_0 is InvalidPattern,
    {
        let pattern = match name_pattern {
            Some(p) => match NamePattern::new(p) {
                Ok(np) => Some(np),
                Err(e) => {
                    return Err(e);
                },
            },
            None => None,
        };
        Ok(FilterCriteria {
            name_pattern: pattern,
            ownership_prefix: String::from_str(ownership_prefix),
            include_foreign,
        })
    }

    /// Whether the function named `name` (demangled, with its hash) is shown.
    pub fn accepts(&self, name: &str) -> (r: bool)
        ensures
            r == accepts(self@, name@),
    {
        let owned = self.include_foreign || starts_with(name, self.ownership_prefix.as_str());
        if !owned {
            return false;
        }
        match &self.name_pattern {
            Some(p) => p.is_match(name),
            None => true,
        }
    }
}

/// Whether `s` begins with `p`.
pub fn starts_with(s: &str, p: &str) -> (r: bool)
    ensures
        r == p@.is_prefix_of(s@),
{
    let sc = chars_of(s);
    let pc = chars_of(p);
    let r = crate::text::has_prefix_at(&sc, 0, &pc);
    assert(s@.skip(0) =~= s@);
    r
}

/// A package name in the form its paths take: each `-` becomes `_`.
pub open spec fn crate_name_of(package: Seq<char>) -> Seq<char> {
    package.map_values(|c: char| if c == '-' { '_' } else { c })
}

/// The ownership prefix of the package named `package`.
pub fn ownership_prefix(package: &str) -> (r: String)
    ensures
        r@ == crate_name_of(package@),
{
    let cs = chars_of(package);
    let mut r = String::new();
    let mut i: usize = 0;
    while i < cs.len()
        invariant
            i <= cs.len(),
            cs@ == package@,
            r@ == crate_name_of(package@.take(i as int)),
        decreases cs.len() - i,
    {
        if cs[i] == '-' {
            let u = "_";
            proof {
                reveal_strlit("_");
            }
            r.append(u);
        } else {
            r.append(package.substring_char(i, i + 1));
        }
        assert(crate_name_of(package@.take(i + 1)) =~= crate_name_of(package@.take(i as int))
            + crate_name_of(package@.subrange(i as int, i + 1)));
        i = i + 1;
    }
    assert(package@.take(i as int) =~= package@);
    r
}

/// The white-space separated words of `s`, in order.
pub open spec fn words_of(s: Seq<char>) -> Seq<Seq<char>>
    decreases s.len(),
{
    if s.len() == 0 {
        seq![]
    } else {
        let w = words_of(s.drop_last());
        let c = s.last();
        if is_white_space(c) {
            w
        } else if s.len() >= 2 && !is_white_space(s[s.len() - 2]) {
            w.drop_last().push(w.last().push(c))
        } else {
            w.push(seq![c])
        }
    }
}

/// Splits a list of feature names on white space.
pub fn parse_opt_vec(src: &str) -> (r: Result<Vec<String>, std::string::ParseError>)
    ensures
        r is Ok,
        r->Ok_0@.map_values(|w: String| w@) == words_of(src@),
{
    let cs = chars_of(src);
    let n = cs.len();
    let mut out: Vec<String> = Vec::new();
    let mut start: usize = 0;
    let mut i: usize = 0;
    while i < n
        invariant
            n == cs.len(),
            cs@ == src@,
            start <= i <= n,
            out@.map_values(|w: String| w@) + (if start < i {
                seq![src@.subrange(start as int, i as int)]
            } else {
                seq![]
            }) == words_of(src@.take(i as int)),
            start < i <==> (i > 0 && !is_white_space(src@[i - 1])),
        decreases n - i,
    {
        let ghost prev = out@.map_values(|w: String| w@);
        let ghost t = src@.take(i + 1);
        assert(t.drop_last() =~= src@.take(i as int));
        assert(t.last() == src@[i as int]);
        if is_white_space_char(cs[i]) {
            if start < i {
                out.push(String::from_str(src.substring_char(start, i)));
                assert(out@.map_values(|w: String| w@) =~= prev.push(
                    src@.subrange(start as int, i as int),
                ));
            }
            start = i + 1;
        } else {
            if start < i {
                assert(t[i - 1] == src@[i - 1]);
                assert(src@.subrange(start as int, i + 1) =~= src@.subrange(
                    start as int,
                    i as int,
                ).push(cs[i as int]));
            } else {
                assert(src@.subrange(start as int, i + 1) =~= seq![cs[i as int]]);
            }
        }
        i = i + 1;
        assert(out@.map_values(|w: String| w@) + (if start < i {
            seq![src@.subrange(start as int, i as int)]
        } else {
            seq![]
        }) =~= words_of(src@.take(i as int)));
    }
    assert(src@.take(n as int) =~= src@);
    let ghost prev = out@.map_values(|w: String| w@);
    if start < n {
        out.push(String::from_str(src.substring_char(start, n)));
        assert(out@.map_values(|w: String| w@) =~= prev.push(
            src@.subrange(start as int, n as int),
        ));
    } else {
        assert(prev + seq![] =~= prev);
    }
    Ok(out)
}

} // verus!
