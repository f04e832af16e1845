//! Route table: an ordered list of (matcher, handler) pairs and a fallback
//! handler. Resolution tries the routes in order; the first match wins, and
//! the fallback answers every path that no route matches.

use vstd::prelude::*;

verus! {

#[verifier::external_type_specification]
#[verifier::external_body]
pub struct ExBytesRegex(regex::bytes::Regex);

#[verifier::external_type_specification]
#[verifier::external_body]
pub struct ExRegexError(regex::Error);

/// Whether the regex crate's compiler accepts `pattern` under its default
/// limits.
pub uninterp spec fn pattern_compiles(pattern: Seq<char>) -> bool;

/// Whether the regular expression `pattern` matches somewhere in `path`.
pub uninterp spec fn pattern_matches(pattern: Seq<char>, path: Seq<u8>) -> bool;

/// Relies on `regex::bytes::Regex::new`: whether it succeeds depends on the
/// pattern alone.
#[verifier::external_body]
fn compile_pattern(pattern: &str) -> (r: Result<regex::bytes::Regex, regex::Error>)
    ensures
        r is Ok <==> pattern_compiles(pattern@),
{
    regex::bytes::Regex::new(pattern)
}

/// Relies on `regex::bytes::Regex::is_match`. The compiled regex of a
/// `PathPattern` is always the one that `PathPattern::new` built from its
/// source, the only way a `PathPattern` is made.
#[verifier::external_body]
fn regex_is_match(p: &PathPattern, path: &[u8]) -> (r: bool)
    ensures
        r == pattern_matches(p@, path@),
{
    p.regex.is_match(path)
}

/// Why a route could not be built.
#[derive(Clone, Copy, Debug, PartialEq, Eq, Structural)]
pub enum RouteError {
    /// The regular expression does not compile.
    InvalidPattern,
}

/// A regular expression over request targets, kept with its source text.
pub struct PathPattern {
    source: String,
    regex: regex::bytes::Regex,
}

impl View for PathPattern {
    type V = Seq<char>;

    closed spec fn view(&self) -> Seq<char> {
        self.source@
    }
}

impl PathPattern {
    /// Compiles `source`.
    pub fn new(source: &str) -> (r: Result<PathPattern, RouteError>)
        ensures
            match r {
                Ok(p) => pattern_compiles(source@) && p@ == source@,
                Err(e) => !pattern_compiles(source@) && e == RouteError::InvalidPattern,
            },
    {
        match compile_pattern(source) {
            Ok(regex) => Ok(PathPattern { source: source.to_owned(), regex }),
            Err(_) => Err(RouteError::InvalidPattern),
        }
    }

    /// The source text of the pattern.
    pub fn as_str(&self) -> (r: &str)
        ensures
            r@ == self@,
    {
        self.source.as_str()
    }
}

/// How a route recognises the paths it serves.
pub enum Matcher {
    /// The path equals these bytes.
    Exact(Vec<u8>),
    /// The regular expression matches the path.
    Pattern(PathPattern),
}

impl Matcher {
    /// Whether this matcher accepts `path`.
    pub open spec fn matches(&self, path: Seq<u8>) -> bool {
        match self {
            Matcher::Exact(lit) => lit@ == path,
            Matcher::Pattern(p) => pattern_matches(p@, path),
        }
    }

    /// Tests `path` against this matcher.
    pub fn is_match(&self, path: &[u8]) -> (r: bool)
        ensures
            r == self.matches(path@),
    {
        match self {
            Matcher::Exact(lit) => bytes_equal(lit.as_slice(), path),
            Matcher::Pattern(p) => regex_is_match(p, path),
        }
    }
}

fn bytes_equal(a: &[u8], b: &[u8]) -> (r: bool)
    ensures
        r == (a@ == b@),
{
    if a.len() != b.len() {
        return false;
    }
    let mut i: usize = 0;
    while i < a.len()
        invariant
            a@.len() == b@.len(),
            0 <= i <= a@.len(),
            forall|k: int| 0 <= k < i ==> a@[k] == b@[k],
        decreases a@.len() - i,
    {
        if a[i] != b[i] {
            return false;
        }
        i = i + 1;
    }
    assert(a@ =~= b@);
    true
}

/// An ordered route table with a fallback handler.
pub struct Router<H> {
    routes: Vec<(Matcher, H)>,
    fallback: H,
}

impl<H> Router<H> {
    /// The routes, in the order they are tried.
    pub closed spec fn routes(&self) -> Seq<(Matcher, H)> {
        self.routes@
    }

    /// The handler for paths that no route matches.
    pub closed spec fn fallback(&self) -> H {
        self.fallback
    }

    /// The handler chosen for `path` when the routes from index `i` on are
    /// tried in order.
    pub open spec fn resolve_from(&self, path: Seq<u8>, i: int) -> H
        decreases self.routes().len() - i,
    {
        if 0 <= i < self.routes().len() {
            if self.routes()[i].0.matches(path) {
                self.routes()[i].1
            } else {
                self.resolve_from(path, i + 1)
            }
        } else {
            self.fallback()
        }
    }

    /// The handler chosen for `path`.
    pub open spec fn spec_resolve(&self, path: Seq<u8>) -> H {
        self.resolve_from(path, 0)
    }

    /// A table with no routes: every path goes to `fallback`.
    pub fn new(fallback: H) -> (r: Router<H>)
        ensures
            r.routes() == Seq::<(Matcher, H)>::empty(),
            r.fallback() == fallback,
    {
        Router { routes: Vec::new(), fallback }
    }

    /// Appends a route, tried after every route already in the table.
    pub fn add_route(&mut self, matcher: Matcher, handler: H)
        ensures
            final(self).routes() == old(self).routes().push((matcher, handler)),
            final(self).fallback() == old(self).fallback(),
    {
        self.routes.push((matcher, handler));
    }

    /// Number of routes in the table.
    pub fn len(&self) -> (r: usize)
        ensures
            r == self.routes().len(),
    {
        self.routes.len()
    }

    /// The handler for `path`: that of the first route whose matcher accepts
    /// it, or the fallback.
    pub fn resolve(&self, path: &[u8]) -> (r: &H)
        ensures
            *r == self.spec_resolve(path@),
    {
        let mut i: usize = 0;
        while i < self.routes.len()
            invariant
                0 <= i <= self.routes@.len(),
                self.resolve_from(path@, i as int) == self.spec_resolve(path@),
            decreases self.routes@.len() - i,
        {
            let route = &self.routes[i];
            if route.0.is_match(path) {
                return &route.1;
            }
            i = i + 1;
        }
        &self.fallback
    }
}

proof fn lemma_resolve_from<H>(router: &Router<H>, path: Seq<u8>, k: int)
    requires
        0 <= k <= router.routes().len(),
    ensures
        (forall|i: int| k <= i < router.routes().len() ==> !(#[trigger] router.routes()[i]).0.matches(path))
            ==> router.resolve_from(path, k) == router.fallback(),
        forall|i: int|
            k <= i < router.routes().len() && (#[trigger] router.routes()[i]).0.matches(path) && (
            forall|j: int| k <= j < i ==> !router.routes()[j].0.matches(path))
                ==> router.resolve_from(path, k) == router.routes()[i].1,
    decreases router.routes().len() - k,
{
    if k < router.routes().len() {
        lemma_resolve_from(router, path, k + 1);
        if !router.routes()[k].0.matches(path) {
            assert forall|i: int|
                k <= i < router.routes().len() && (#[trigger] router.routes()[i]).0.matches(path) && (
                forall|j: int| k <= j < i ==> !router.routes()[j].0.matches(path))
                implies router.resolve_from(path, k) == router.routes()[i].1 by {
                assert(i != k);
                assert forall|j: int| k + 1 <= j < i implies !router.routes()[j].0.matches(path) by {}
            }
        }
    }
}

/// Resolution is total and first-match: for every path, the handler chosen
/// is that of the first route whose matcher accepts the path, or the
/// fallback when no route does. It depends on the table and the path alone,
/// so resolving the same path again gives the same handler.
pub proof fn lemma_resolve_first_match<H>(router: &Router<H>, path: Seq<u8>)
    ensures
        (forall|i: int| 0 <= i < router.routes().len() ==> !(#[trigger] router.routes()[i]).0.matches(path))
            ==> router.spec_resolve(path) == router.fallback(),
        forall|i: int|
            0 <= i < router.routes().len() && (#[trigger] router.routes()[i]).0.matches(path) && (
            forall|j: int| 0 <= j < i ==> !router.routes()[j].0.matches(path))
                ==> router.spec_resolve(path) == router.routes()[i].1,
        router.spec_resolve(path) == router.fallback() || exists|i: int|
            0 <= i < router.routes().len() && router.spec_resolve(path) == (
            #[trigger] router.routes()[i]).1,
{
    lemma_resolve_from(router, path, 0);
    if exists|i: int| 0 <= i < router.routes().len() && (#[trigger] router.routes()[i]).0.matches(path) {
        lemma_first_index(router, path, 0);
    }
}

proof fn lemma_first_index<H>(router: &Router<H>, path: Seq<u8>, k: int)
    requires
        0 <= k <= router.routes().len(),
        forall|j: int| 0 <= j < k ==> !router.routes()[j].0.matches(path),
        exists|i: int| k <= i < router.routes().len() && (#[trigger] router.routes()[i]).0.matches(path),
    ensures
        exists|i: int|
            0 <= i < router.routes().len() && (#[trigger] router.routes()[i]).0.matches(path) && (
            forall|j: int| 0 <= j < i ==> !router.routes()[j].0.matches(path)),
    decreases router.routes().len() - k,
{
    if router.routes()[k].0.matches(path) {
        assert(0 <= k < router.routes().len() && router.routes()[k].0.matches(path));
    } else {
        lemma_first_index(router, path, k + 1);
    }
}

} // verus!
