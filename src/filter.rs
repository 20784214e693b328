//! Predicates over message payloads.
use vstd::prelude::*;
use vstd::std_specs::iter::IteratorSpec;

verus! {

#[verifier::external_type_specification]
#[verifier::external_body]
pub struct ExRegex(regex::Regex);

/// Whether `needle` occurs in `hay` starting at position `i`.
pub open spec fn occurs_at(hay: Seq<char>, needle: Seq<char>, i: int) -> bool {
    &&& 0 <= i
    &&& i + needle.len() <= hay.len()
    &&& hay.subrange(i, i + needle.len()) == needle
}

/// Whether `needle` is a contiguous part of `hay` (the empty text is part of every text).
pub open spec fn contains_text(hay: Seq<char>, needle: Seq<char>) -> bool {
    exists|i: int| occurs_at(hay, needle, i)
}

/// Whether the regular-expression syntax accepts `pattern` and builds it within its size limit.
pub uninterp spec fn pattern_compiles(pattern: Seq<char>) -> bool;

/// Whether the expression compiled from `pattern` matches somewhere in `hay`.
pub uninterp spec fn pattern_matches(pattern: Seq<char>, hay: Seq<char>) -> bool;

/// The characters of `s` in order.
fn chars_of(s: &str) -> (r: Vec<char>)
    ensures
        r@ == s@,
{
    broadcast use vstd::string::axiom_spec_iter, vstd::string::next_postcondition;

    let mut it = s.chars();
    let mut out: Vec<char> = Vec::new();
    let mut done = false;
    while !done
        invariant
            done ==> out@ == s@,
            !done ==> out@ + it.remaining() == s@,
            out@.len() <= s@.len(),
        decreases s@.len() - out@.len() + if done { 0int } else { 1int },
    {
        match it.next() {
            Some(c) => {
                out.push(c);
                assert(out@ + it.remaining() =~= s@);
            },
            None => {
                assert(out@ =~= s@);
                done = true;
            },
        }
    }
    out
}

/// Relies on `regex::Regex::new`: it succeeds exactly on the patterns that compile.
#[verifier::external_body]
fn compile_pattern(pattern: &str) -> (r: Option<regex::Regex>)
    ensures
        r is Some <==> pattern_compiles(pattern@),
{
    match regex::Regex::new(pattern) {
        Ok(re) => Some(re),
        Err(_) => None,
    }
}

/// Relies on `regex::Regex::is_match`: whether the filter's expression matches anywhere in `hay`.
/// The expression and its pattern text are the two private fields that `RegexFilter::new` sets together.
#[verifier::external_body]
fn regex_is_match(f: &RegexFilter, hay: &str) -> (r: bool)
    ensures
        r == pattern_matches(f.pattern_view(), hay@),
{
    f.regex.is_match(hay)
}

/// Searches `hay` for `needle`, position by position.
pub fn find_text(hay: &Vec<char>, needle: &Vec<char>) -> (r: bool)
    ensures
        r == contains_text(hay@, needle@),
{
    let n = hay.len();
    let m = needle.len();
    if m > n {
        assert forall|k: int| !occurs_at(hay@, needle@, k) by {}
        return false;
    }
    let last: usize = n - m;
    let mut i: usize = 0;
    while i <= last
        invariant
            n == hay@.len(),
            m == needle@.len(),
            last == n - m,
            forall|k: int| 0 <= k < i ==> !occurs_at(hay@, needle@, k),
        decreases last + 1 - i,
    {
        let mut j: usize = 0;
        let mut same = true;
        while j < m && same
            invariant
                n == hay@.len(),
                m == needle@.len(),
                i <= last,
                last == n - m,
                j <= m,
                same ==> forall|k: int| 0 <= k < j ==> hay@[i + k] == needle@[k],
                !same ==> !occurs_at(hay@, needle@, i as int),
            decreases m - j + (if same { 1int } else { 0int }),
        {
            if hay[i + j] != needle[j] {
                proof {
                    if occurs_at(hay@, needle@, i as int) {
                        assert(hay@.subrange(i as int, i + m)[j as int] == hay@[i + j]);
                    }
                }
                same = false;
            } else {
                j = j + 1;
            }
        }
        if same {
            assert(hay@.subrange(i as int, i + m) =~= needle@);
            assert(occurs_at(hay@, needle@, i as int));
            return true;
        }
        if i == last {
            assert forall|k: int| !occurs_at(hay@, needle@, k) by {
                if 0 <= k < i + 1 {
                } else {
                }
            }
            return false;
        }
        i = i + 1;
    }
    false
}

/// A predicate over a message payload.
pub trait MessageFilter {
    /// What the filter needs of itself to answer.
    spec fn well_formed(&self) -> bool;

    /// The answer the filter gives on `message`.
    spec fn accepts(&self, message: Seq<char>) -> bool;

    /// Checks whether `message` passes the filter.
    fn matches(&self, message: &str) -> (r: bool)
        requires
            self.well_formed(),
        ensures
            r == self.accepts(message@),
    ;
}

/// Passes the payloads that contain a given text.
#[derive(Debug)]
pub struct ContainsFilter(pub String);

impl MessageFilter for ContainsFilter {
    open spec fn well_formed(&self) -> bool {
        true
    }

    open spec fn accepts(&self, message: Seq<char>) -> bool {
        contains_text(message, self.0@)
    }

    fn matches(&self, message: &str) -> (r: bool) {
        let hay = chars_of(message);
        let needle = chars_of(self.0.as_str());
        find_text(&hay, &needle)
    }
}

/// Passes the payloads that a regular expression matches.
#[derive(Debug)]
pub struct RegexFilter {
    pattern: String,
    regex: regex::Regex,
}

/// Why a filter could not be built.
#[derive(Debug)]
pub enum FilterError {
    /// The pattern text does not compile.
    InvalidPattern { pattern: String },
}

impl RegexFilter {
    /// Compiles `pattern`; fails exactly when it does not compile.
    pub fn new(pattern: &str) -> (r: Result<RegexFilter, FilterError>)
        ensures
            r is Ok <==> pattern_compiles(pattern@),
            r matches Ok(f) ==> f.pattern_view() == pattern@,
            r matches Err(FilterError::InvalidPattern { pattern: p }) ==> p@ == pattern@,
    {
        match compile_pattern(pattern) {
            Some(regex) => Ok(RegexFilter { pattern: pattern.to_owned(), regex }),
            None => Err(FilterError::InvalidPattern { pattern: pattern.to_owned() }),
        }
    }

    /// The pattern text the filter was compiled from.
    pub closed spec fn pattern_view(&self) -> Seq<char> {
        self.pattern@
    }

    /// The pattern text the filter was compiled from.
    pub fn pattern(&self) -> (r: &str)
        ensures
            r@ == self.pattern_view(),
    {
        self.pattern.as_str()
    }
}

impl MessageFilter for RegexFilter {
    open spec fn well_formed(&self) -> bool {
        true
    }

    open spec fn accepts(&self, message: Seq<char>) -> bool {
        pattern_matches(self.pattern_view(), message)
    }

    fn matches(&self, message: &str) -> (r: bool) {
        regex_is_match(self, message)
    }
}

/// Passes the payloads on which a caller's predicate answers `true`.
pub struct FunctionFilter<F: Fn(&str) -> bool>(pub F);

impl<F: Fn(&str) -> bool> MessageFilter for FunctionFilter<F> {
    /// The predicate may be called on every text and answers the same on equal texts.
    open spec fn well_formed(&self) -> bool {
        &&& forall|s: &str| #[trigger] self.0.requires((s,))
        &&& forall|s: &str, t: &str, a: bool, b: bool|
            s@ == t@ && #[trigger] self.0.ensures((s,), a) && #[trigger] self.0.ensures((t,), b)
                ==> a == b
    }

    open spec fn accepts(&self, message: Seq<char>) -> bool {
        exists|s: &str| s@ == message && #[trigger] self.0.ensures((s,), true)
    }

    fn matches(&self, message: &str) -> (r: bool) {
        let r = (self.0)(message);
        proof {
            if !r {
                assert forall|s: &str| s@ == message@ implies !#[trigger] self.0.ensures((s,), true) by {
                    if self.0.ensures((s,), true) {
                        assert(self.0.ensures((message,), r));
                    }
                }
            }
        }
        r
    }
}

} // verus!
