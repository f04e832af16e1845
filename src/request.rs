//! Parsing of the first line of an HTTP request (`METHOD TARGET VERSION`).

use vstd::prelude::*;

verus! {

/// Why a request line was refused.
#[derive(Clone, Copy, Debug, PartialEq, Eq, Structural)]
pub enum ParseError {
    /// The first line is empty (or nothing was read): the request has no
    /// header lines at all.
    NoHeaders,
    /// The first line holds no word at all.
    MissingMethod,
    /// The first line holds a method but no target.
    MissingUri,
    /// The method is not `GET`.
    MethodNotSupported,
    /// The target does not start with `/`.
    InvalidUri,
}

/// The two words of a request line that the server looks at.
#[derive(Debug)]
pub struct RequestLine {
    pub method: Vec<u8>,
    pub target: Vec<u8>,
}

/// ASCII white space, as `char::is_whitespace` counts it.
pub open spec fn is_space(b: u8) -> bool {
    b == 9 || b == 10 || b == 11 || b == 12 || b == 13 || b == 32
}

/// The method that the server serves: `GET`.
pub open spec fn get_method() -> Seq<u8> {
    seq![71u8, 69u8, 84u8]
}

/// Index of the first line feed at or after `i`, or the length of `s`.
pub open spec fn line_end(s: Seq<u8>, i: int) -> int
    decreases s.len() - i,
{
    if i < s.len() && s[i] != 10u8 {
        line_end(s, i + 1)
    } else {
        i
    }
}

/// First index at or after `i` (and before `end`) that is not white space.
pub open spec fn skip_spaces(s: Seq<u8>, i: int, end: int) -> int
    decreases end - i,
{
    if i < end && is_space(s[i]) {
        skip_spaces(s, i + 1, end)
    } else {
        i
    }
}

/// First index at or after `i` (and before `end`) that is white space.
pub open spec fn skip_word(s: Seq<u8>, i: int, end: int) -> int
    decreases end - i,
{
    if i < end && !is_space(s[i]) {
        skip_word(s, i + 1, end)
    } else {
        i
    }
}

/// Length of the first line of `s`, without its line feed and without a
/// carriage return just before that line feed.
pub open spec fn first_line_len(s: Seq<u8>) -> int {
    let end = line_end(s, 0);
    if 0 < end < s.len() && s[end - 1] == 13u8 {
        end - 1
    } else {
        end
    }
}

/// The outcome of parsing `s`: the method and the target of its first line,
/// or the first rule that the line breaks.
pub open spec fn parse_spec(s: Seq<u8>) -> Result<(Seq<u8>, Seq<u8>), ParseError> {
    let end = line_end(s, 0);
    let m0 = skip_spaces(s, 0, end);
    let m1 = skip_word(s, m0, end);
    let t0 = skip_spaces(s, m1, end);
    let t1 = skip_word(s, t0, end);
    if first_line_len(s) == 0 {
        Err(ParseError::NoHeaders)
    } else if m0 == end {
        Err(ParseError::MissingMethod)
    } else if t0 == end {
        Err(ParseError::MissingUri)
    } else if s.subrange(m0, m1) != get_method() {
        Err(ParseError::MethodNotSupported)
    } else if s[t0] != 47u8 {
        Err(ParseError::InvalidUri)
    } else {
        Ok((s.subrange(m0, m1), s.subrange(t0, t1)))
    }
}

proof fn lemma_line_end_bounds(s: Seq<u8>, i: int)
    requires
        0 <= i <= s.len(),
    ensures
        i <= line_end(s, i) <= s.len(),
    decreases s.len() - i,
{
    if i < s.len() && s[i] != 10u8 {
        lemma_line_end_bounds(s, i + 1);
    }
}

proof fn lemma_skip_spaces_bounds(s: Seq<u8>, i: int, end: int)
    requires
        i <= end,
    ensures
        i <= skip_spaces(s, i, end) <= end,
    decreases end - i,
{
    if i < end && is_space(s[i]) {
        lemma_skip_spaces_bounds(s, i + 1, end);
    }
}

proof fn lemma_skip_word_bounds(s: Seq<u8>, i: int, end: int)
    requires
        i <= end,
    ensures
        i <= skip_word(s, i, end) <= end,
    decreases end - i,
{
    if i < end && !is_space(s[i]) {
        lemma_skip_word_bounds(s, i + 1, end);
    }
}

fn is_space_byte(b: u8) -> (r: bool)
    ensures
        r == is_space(b),
{
    b == 9 || b == 10 || b == 11 || b == 12 || b == 13 || b == 32
}

fn find_line_end(s: &[u8]) -> (r: usize)
    ensures
        r as int == line_end(s@, 0),
{
    let mut i: usize = 0;
    while i < s.len() && s[i] != 10u8
        invariant
            0 <= i <= s@.len(),
            line_end(s@, i as int) == line_end(s@, 0),
        decreases s@.len() - i,
    {
        i = i + 1;
    }
    i
}

fn find_non_space(s: &[u8], start: usize, end: usize) -> (r: usize)
    requires
        start <= end <= s@.len(),
    ensures
        r as int == skip_spaces(s@, start as int, end as int),
{
    let mut i = start;
    while i < end && is_space_byte(s[i])
        invariant
            start <= i <= end <= s@.len(),
            skip_spaces(s@, i as int, end as int) == skip_spaces(s@, start as int, end as int),
        decreases end - i,
    {
        i = i + 1;
    }
    i
}

fn find_space(s: &[u8], start: usize, end: usize) -> (r: usize)
    requires
        start <= end <= s@.len(),
    ensures
        r as int == skip_word(s@, start as int, end as int),
{
    let mut i = start;
    while i < end && !is_space_byte(s[i])
        invariant
            start <= i <= end <= s@.len(),
            skip_word(s@, i as int, end as int) == skip_word(s@, start as int, end as int),
        decreases end - i,
    {
        i = i + 1;
    }
    i
}

fn copy_range(s: &[u8], from: usize, to: usize) -> (r: Vec<u8>)
    requires
        from <= to <= s@.len(),
    ensures
        r@ == s@.subrange(from as int, to as int),
{
    let mut out: Vec<u8> = Vec::new();
    let mut i = from;
    while i < to
        invariant
            from <= i <= to <= s@.len(),
            out@ == s@.subrange(from as int, i as int),
        decreases to - i,
    {
        out.push(s[i]);
        i = i + 1;
        assert(out@ =~= s@.subrange(from as int, i as int));
    }
    out
}

fn is_get(s: &[u8], from: usize, to: usize) -> (r: bool)
    requires
        from <= to <= s@.len(),
    ensures
        r == (s@.subrange(from as int, to as int) == get_method()),
{
    if to - from != 3 {
        assert(s@.subrange(from as int, to as int).len() != get_method().len());
        return false;
    }
    let r = s[from] == 71u8 && s[from + 1] == 69u8 && s[from + 2] == 84u8;
    if r {
        assert(s@.subrange(from as int, to as int) =~= get_method());
    } else {
        let ghost sub = s@.subrange(from as int, to as int);
        assert(sub[0] != get_method()[0] || sub[1] != get_method()[1] || sub[2]
            != get_method()[2]);
    }
    r
}

/// Parses the first line of `request` into its method and target.
///
/// Only the bytes before the first line feed are looked at; words are
/// separated by ASCII white space, and a trailing carriage return counts as
/// such. The line must not be empty, it must hold a method and a target, the
/// method must be `GET` and the target must start with `/`.
pub fn parse_request_line(request: &[u8]) -> (r: Result<RequestLine, ParseError>)
    ensures
        match r {
            Ok(line) => parse_spec(request@) == Ok::<(Seq<u8>, Seq<u8>), ParseError>(
                (line.method@, line.target@),
            ),
            Err(e) => parse_spec(request@) == Err::<(Seq<u8>, Seq<u8>), ParseError>(e),
        },
{
    let ghost s = request@;
    let end = find_line_end(request);
    proof {
        lemma_line_end_bounds(s, 0);
    }
    let content_len = if 0 < end && end < request.len() && request[end - 1] == 13u8 {
        end - 1
    } else {
        end
    };
    if content_len == 0 {
        return Err(ParseError::NoHeaders);
    }
    let m0 = find_non_space(request, 0, end);
    proof {
        lemma_skip_spaces_bounds(s, 0, end as int);
    }
    if m0 == end {
        return Err(ParseError::MissingMethod);
    }
    let m1 = find_space(request, m0, end);
    proof {
        lemma_skip_word_bounds(s, m0 as int, end as int);
    }
    let t0 = find_non_space(request, m1, end);
    proof {
        lemma_skip_spaces_bounds(s, m1 as int, end as int);
    }
    if t0 == end {
        return Err(ParseError::MissingUri);
    }
    let t1 = find_space(request, t0, end);
    proof {
        lemma_skip_word_bounds(s, t0 as int, end as int);
    }
    if !is_get(request, m0, m1) {
        return Err(ParseError::MethodNotSupported);
    }
    if request[t0] != 47u8 {
        return Err(ParseError::InvalidUri);
    }
    let method = copy_range(request, m0, m1);
    let target = copy_range(request, t0, t1);
    Ok(RequestLine { method, target })
}

proof fn lemma_line_end_skip(s: Seq<u8>, i: int, k: int)
    requires
        0 <= i <= k <= s.len(),
        forall|j: int| i <= j < k ==> s[j] != 10u8,
    ensures
        line_end(s, i) == line_end(s, k),
    decreases k - i,
{
    if i < k {
        lemma_line_end_skip(s, i + 1, k);
    }
}

proof fn lemma_skip_word_run(s: Seq<u8>, i: int, k: int, end: int)
    requires
        0 <= i <= k <= end <= s.len(),
        forall|j: int| i <= j < k ==> !is_space(s[j]),
        k == end || is_space(s[k]),
    ensures
        skip_word(s, i, end) == k,
    decreases k - i,
{
    if i < k {
        lemma_skip_word_run(s, i + 1, k, end);
    }
}

/// Formatting a request line and parsing it back gives its target: `GET`,
/// one space, a target that starts with `/` and holds no white space, then
/// anything that starts with white space (such as ` HTTP/1.1\r\n` and the
/// header lines) parses to the method `GET` and that very target.
pub proof fn lemma_request_line_round_trip(target: Seq<u8>, rest: Seq<u8>)
    requires
        target.len() > 0,
        target[0] == 47u8,
        forall|i: int| 0 <= i < target.len() ==> !is_space(#[trigger] target[i]),
        rest.len() == 0 || is_space(rest[0]),
    ensures
        parse_spec(get_method() + seq![32u8] + target + rest) == Ok::<(Seq<u8>, Seq<u8>), ParseError>(
            (get_method(), target),
        ),
        uri_spec(get_method() + seq![32u8] + target + rest) == Ok::<Seq<u8>, ParseError>(target),
{
    let s = get_method() + seq![32u8] + target + rest;
    let n: int = 4 + target.len() as int;
    assert(s[0] == 71u8 && s[1] == 69u8 && s[2] == 84u8 && s[3] == 32u8);
    assert forall|j: int| 4 <= j < n implies s[j] == target[j - 4] by {}
    assert(s[4] == 47u8);
    assert forall|j: int| 0 <= j < n implies s[j] != 10u8 by {
        if j >= 4 {
            assert(s[j] == target[j - 4]);
        }
    }
    lemma_line_end_skip(s, 0, n);
    lemma_line_end_bounds(s, n);
    let end = line_end(s, 0);
    assert(end >= n);
    assert(first_line_len(s) > 0);
    assert(skip_spaces(s, 0, end) == 0);
    lemma_skip_word_run(s, 0, 3, end);
    assert(skip_spaces(s, 4, end) == 4);
    assert(skip_spaces(s, 3, end) == 4);
    if n < end {
        assert(s[n] == rest[0]);
    }
    assert forall|j: int| 4 <= j < n implies !is_space(s[j]) by {
        assert(s[j] == target[j - 4]);
    }
    lemma_skip_word_run(s, 4, n, end);
    assert(s.subrange(0, 3) =~= get_method());
    assert(s.subrange(4, n) =~= target);
}

/// The target of the request's first line, or the parse error.
pub open spec fn uri_spec(s: Seq<u8>) -> Result<Seq<u8>, ParseError> {
    match parse_spec(s) {
        Ok(words) => Ok(words.1),
        Err(e) => Err(e),
    }
}

/// The target of the request's first line, under the rules of
/// [`parse_request_line`].
pub fn get_uri(request: &[u8]) -> (r: Result<Vec<u8>, ParseError>)
    ensures
        match r {
            Ok(t) => uri_spec(request@) == Ok::<Seq<u8>, ParseError>(t@),
            Err(e) => uri_spec(request@) == Err::<Seq<u8>, ParseError>(e),
        },
{
    match parse_request_line(request) {
        Ok(line) => Ok(line.target),
        Err(e) => Err(e),
    }
}

} // verus!
