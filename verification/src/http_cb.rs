//! Parsing of the one inbound callback request.
//!
//! During a bank consent the bank's site redirects the operator's browser to
//! a local address; the listener reads the request's header lines and hands
//! them here.  The request line must be a `GET` (any letter case) whose
//! target carries a query string; the query is split into `&`-separated
//! `key=value` pairs, pairs that do not split into exactly two parts are
//! skipped, and of repeated keys the last one counts.  Whatever the outcome,
//! the listener answers with the same fixed confirmation page.
//!
//! The grammar is pinned down by the spec functions (`ws_words`,
//! `split_from`, `pairs_of`, `lookup_pair`); the executable parser is proved
//! to return exactly what they describe.

use vstd::prelude::*;

verus! {

/// How the callback request can be refused.  The confirmation page is sent
/// to the browser regardless; these only decide what the handshake reports.
#[derive(Clone, Copy, Debug, PartialEq, Eq, Structural)]
pub enum ProtocolError {
    /// No header lines arrived at all.
    EmptyRequest,
    /// The request line has fewer than three whitespace-separated words.
    BadRequestLine,
    /// The request method is not `GET` in any letter case.
    BadMethod,
    /// The request target carries no `?`-delimited query string.
    NoParameters,
    /// The query string has no `ref` key.
    MissingRef,
}

/// Whitespace as the request line splits on it.
pub open spec fn is_ws(c: char) -> bool {
    c == ' ' || c == '\t' || c == '\r' || c == '\n'
}

/// The first position at or after `i` that ends a word: the end of `s` or a
/// whitespace character.
pub open spec fn word_end(s: Seq<char>, i: int) -> int
    decreases s.len() - i,
{
    if i >= s.len() || is_ws(s[i]) {
        i
    } else {
        word_end(s, i + 1)
    }
}

proof fn lemma_word_end_bounds(s: Seq<char>, i: int)
    requires
        0 <= i <= s.len(),
    ensures
        i <= word_end(s, i) <= s.len(),
        i < s.len() && !is_ws(s[i]) ==> word_end(s, i) >= i + 1,
    decreases s.len() - i,
{
    if i < s.len() && !is_ws(s[i]) {
        lemma_word_end_bounds(s, i + 1);
    }
}

/// The whitespace-separated words of `s` from position `i` on.
pub open spec fn ws_words_from(s: Seq<char>, i: int) -> Seq<Seq<char>>
    decreases s.len() - i,
        when 0 <= i <= s.len()
        via ws_words_from_decreases
{
    if i >= s.len() {
        Seq::empty()
    } else if is_ws(s[i]) {
        ws_words_from(s, i + 1)
    } else {
        seq![s.subrange(i, word_end(s, i))] + ws_words_from(s, word_end(s, i))
    }
}

#[via_fn]
proof fn ws_words_from_decreases(s: Seq<char>, i: int) {
    if 0 <= i <= s.len() && i < s.len() && !is_ws(s[i]) {
        lemma_word_end_bounds(s, i);
    }
}

pub open spec fn ws_words(s: Seq<char>) -> Seq<Seq<char>> {
    ws_words_from(s, 0)
}

/// The first position at or after `i` holding `ch`, or the end of `s`.
pub open spec fn find_from(s: Seq<char>, i: int, ch: char) -> int
    decreases s.len() - i,
{
    if i >= s.len() {
        s.len() as int
    } else if s[i] == ch {
        i
    } else {
        find_from(s, i + 1, ch)
    }
}

proof fn lemma_find_from_bounds(s: Seq<char>, i: int, ch: char)
    requires
        0 <= i <= s.len(),
    ensures
        i <= find_from(s, i, ch) <= s.len(),
    decreases s.len() - i,
{
    if i < s.len() && s[i] != ch {
        lemma_find_from_bounds(s, i + 1, ch);
    }
}

/// `s` from position `i` on, split at every `sep` (empty parts kept).
pub open spec fn split_from(s: Seq<char>, i: int, sep: char) -> Seq<Seq<char>>
    decreases s.len() - i,
        when 0 <= i <= s.len()
        via split_from_decreases
{
    if find_from(s, i, sep) >= s.len() {
        seq![s.subrange(i, s.len() as int)]
    } else {
        seq![s.subrange(i, find_from(s, i, sep))] + split_from(s, find_from(s, i, sep) + 1, sep)
    }
}

#[via_fn]
proof fn split_from_decreases(s: Seq<char>, i: int, sep: char) {
    if 0 <= i <= s.len() {
        lemma_find_from_bounds(s, i, sep);
    }
}

/// The key/value pairs among the given parts: a part that splits on `=`
/// into exactly two halves contributes them, any other part is skipped.
pub open spec fn pairs_of(parts: Seq<Seq<char>>) -> Seq<(Seq<char>, Seq<char>)>
    decreases parts.len(),
{
    if parts.len() == 0 {
        Seq::empty()
    } else {
        let kv = split_from(parts[0], 0, '=');
        (if kv.len() == 2 {
            seq![(kv[0], kv[1])]
        } else {
            Seq::empty()
        }) + pairs_of(parts.drop_first())
    }
}

/// The value under `key`, where of repeated keys the last one counts.
pub open spec fn lookup_pair(pairs: Seq<(Seq<char>, Seq<char>)>, key: Seq<char>) -> Option<
    Seq<char>,
>
    decreases pairs.len(),
{
    if pairs.len() == 0 {
        None
    } else if pairs.last().0 == key {
        Some(pairs.last().1)
    } else {
        lookup_pair(pairs.drop_last(), key)
    }
}

/// The word is `GET` in any letter case.  (The request line is ASCII; case
/// folding beyond ASCII is not considered.)
pub open spec fn is_get_word(w: Seq<char>) -> bool {
    &&& w.len() == 3
    &&& (w[0] == 'g' || w[0] == 'G')
    &&& (w[1] == 'e' || w[1] == 'E')
    &&& (w[2] == 't' || w[2] == 'T')
}

/// What the callback parser makes of the request's header lines.
pub open spec fn parse_request_spec(req: Seq<Seq<char>>) -> Result<
    Seq<(Seq<char>, Seq<char>)>,
    ProtocolError,
> {
    if req.len() == 0 {
        Err(ProtocolError::EmptyRequest)
    } else {
        let w = ws_words(req[0]);
        if w.len() < 3 {
            Err(ProtocolError::BadRequestLine)
        } else if !is_get_word(w[0]) {
            Err(ProtocolError::BadMethod)
        } else {
            let t = w[1];
            if find_from(t, 0, '?') >= t.len() {
                Err(ProtocolError::NoParameters)
            } else {
                Ok(pairs_of(split_from(t, find_from(t, 0, '?') + 1, '&')))
            }
        }
    }
}

/// What the whole exchange reports: the `ref` value of a well-formed
/// request, or the first failure.
pub open spec fn extract_ref_spec(req: Seq<Seq<char>>) -> Result<Seq<char>, ProtocolError> {
    match parse_request_spec(req) {
        Err(e) => Err(e),
        Ok(pairs) => match lookup_pair(pairs, "ref"@) {
            Some(v) => Ok(v),
            None => Err(ProtocolError::MissingRef),
        },
    }
}

/// The views of a vector of string pairs.
pub open spec fn pairs_view(pairs: Seq<(String, String)>) -> Seq<(Seq<char>, Seq<char>)> {
    pairs.map_values(|p: (String, String)| (p.0@, p.1@))
}

fn word_end_x(s: &str, i: usize) -> (r: usize)
    requires
        i <= s@.len(),
    ensures
        r == word_end(s@, i as int),
        i <= r <= s@.len(),
{
    let n = s.unicode_len();
    let mut j: usize = i;
    loop
        invariant
            i <= j <= n,
            word_end(s@, i as int) == word_end(s@, j as int),
        decreases n - j,
    {
        if j >= n {
            return j;
        }
        let c = s.get_char(j);
        if c == ' ' || c == '\t' || c == '\r' || c == '\n' {
            return j;
        }
        j += 1;
    }
}

fn find_char(s: &str, i: usize, ch: char) -> (r: usize)
    requires
        i <= s@.len(),
    ensures
        r == find_from(s@, i as int, ch),
        i <= r <= s@.len(),
{
    let n = s.unicode_len();
    let mut j: usize = i;
    while j < n && s.get_char(j) != ch
        invariant
            i <= j <= n,
            find_from(s@, i as int, ch) == find_from(s@, j as int, ch),
        decreases n - j,
    {
        j += 1;
    }
    j
}

/// Whether two strings hold the same characters.
pub fn str_eq(a: &str, b: &str) -> (r: bool)
    ensures
        r == (a@ == b@),
{
    let la = a.unicode_len();
    let lb = b.unicode_len();
    if la != lb {
        return false;
    }
    let r = crate::text::expect_lit(a, 0, b);
    proof {
        if r {
            crate::text::lemma_subrange_all(a@);
        }
        if a@ == b@ {
            crate::text::lemma_subrange_all(a@);
        }
    }
    r
}

/// The whitespace-separated words of `s` from position `i` on.
fn words_from(s: &str, i: usize) -> (r: Vec<String>)
    requires
        i <= s@.len(),
    ensures
        r@.map_values(|w: String| w@) == ws_words_from(s@, i as int),
    decreases s@.len() - i,
{
    let n = s.unicode_len();
    if i >= n {
        let r: Vec<String> = Vec::new();
        proof {
            assert(r@.map_values(|w: String| w@) =~= ws_words_from(s@, i as int));
        }
        return r;
    }
    let c = s.get_char(i);
    if c == ' ' || c == '\t' || c == '\r' || c == '\n' {
        return words_from(s, i + 1);
    }
    let e = word_end_x(s, i);
    proof {
        lemma_word_end_bounds(s@, i as int);
    }
    let w = s.substring_char(i, e).to_owned();
    let mut rest = words_from(s, e);
    rest.insert(0, w);
    proof {
        assert(rest@.map_values(|x: String| x@) =~= seq![s@.subrange(i as int, e as int)]
            + ws_words_from(s@, e as int));
    }
    rest
}

/// Split one `key=value` part: `Some` exactly when there is a single `=`.
fn split_pair(p: &str) -> (r: Option<(String, String)>)
    ensures
        r is Some ==> {
            let kv = split_from(p@, 0, '=');
            &&& kv.len() == 2
            &&& r->Some_0.0@ == kv[0]
            &&& r->Some_0.1@ == kv[1]
        },
        r is None ==> split_from(p@, 0, '=').len() != 2,
{
    let n = p.unicode_len();
    let e1 = find_char(p, 0, '=');
    if e1 >= n {
        return None;
    }
    let e2 = find_char(p, e1 + 1, '=');
    proof {
        if e2 < n {
            // a second separator: at least three parts
            assert(split_from(p@, e1 + 1, '=').len() >= 2) by {
                assert(split_from(p@, e2 + 1, '=').len() >= 1);
            }
        } else {
            assert(split_from(p@, e1 + 1, '=') =~= seq![p@.subrange(e1 + 1, p@.len() as int)]);
        }
    }
    if e2 < n {
        return None;
    }
    let k = p.substring_char(0, e1).to_owned();
    let v = p.substring_char(e1 + 1, n).to_owned();
    Some((k, v))
}

/// The key/value pairs of the query string of `s` from position `i` on.
fn query_pairs(s: &str, i: usize) -> (r: Vec<(String, String)>)
    requires
        i <= s@.len(),
    ensures
        pairs_view(r@) == pairs_of(split_from(s@, i as int, '&')),
    decreases s@.len() - i,
{
    let n = s.unicode_len();
    let j = find_char(s, i, '&');
    let piece = s.substring_char(i, j).to_owned();
    let ghost parts = split_from(s@, i as int, '&');
    let kv = split_pair(piece.as_str());
    if j >= n {
        proof {
            assert(parts =~= seq![s@.subrange(i as int, s@.len() as int)]);
            assert(parts.drop_first() =~= Seq::<Seq<char>>::empty());
            assert(pairs_of(parts.drop_first()) =~= Seq::<(Seq<char>, Seq<char>)>::empty());
        }
        let mut r: Vec<(String, String)> = Vec::new();
        match kv {
            Some(p) => {
                r.push(p);
                proof {
                    assert(pairs_view(r@) =~= pairs_of(parts));
                }
            }
            None => {
                proof {
                    assert(pairs_view(r@) =~= pairs_of(parts));
                }
            }
        }
        r
    } else {
        let mut rest = query_pairs(s, j + 1);
        proof {
            assert(parts =~= seq![s@.subrange(i as int, j as int)] + split_from(
                s@,
                j + 1,
                '&',
            ));
            assert(parts.drop_first() =~= split_from(s@, j + 1, '&'));
        }
        match kv {
            Some(p) => {
                rest.insert(0, p);
                proof {
                    assert(pairs_view(rest@) =~= pairs_of(parts));
                }
            }
            None => {
                proof {
                    assert(pairs_view(rest@) =~= pairs_of(parts));
                }
            }
        }
        rest
    }
}

/// Parse the callback request's header lines into its query parameters.
///
/// The request line must have at least three words, open with `GET` in any
/// letter case, and carry a `?`-delimited query string; the query splits at
/// `&` into `key=value` pairs, and parts without exactly one `=` are
/// skipped.
pub fn parse_request(req: &Vec<String>) -> (r: Result<Vec<(String, String)>, ProtocolError>)
    ensures
        r is Ok ==> parse_request_spec(req.deep_view()) == Ok::<_, ProtocolError>(
            pairs_view(r->Ok_0@),
        ),
        r is Err ==> parse_request_spec(req.deep_view()) == Err::<
            Seq<(Seq<char>, Seq<char>)>,
            _,
        >(r->Err_0),
{
    let ghost dv = req.deep_view();
    if req.len() == 0 {
        return Err(ProtocolError::EmptyRequest);
    }
    let line = &req[0];
    proof {
        assert(dv[0] == line@);
    }
    let words = words_from(line.as_str(), 0);
    let ghost w = ws_words(line@);
    if words.len() < 3 {
        return Err(ProtocolError::BadRequestLine);
    }
    let method = &words[0];
    proof {
        assert(words@.map_values(|x: String| x@)[0] == method@);
    }
    let ml = method.as_str().unicode_len();
    let get_ok = if ml != 3 {
        false
    } else {
        let c0 = method.as_str().get_char(0);
        let c1 = method.as_str().get_char(1);
        let c2 = method.as_str().get_char(2);
        (c0 == 'g' || c0 == 'G') && (c1 == 'e' || c1 == 'E') && (c2 == 't' || c2 == 'T')
    };
    if !get_ok {
        return Err(ProtocolError::BadMethod);
    }
    let target = &words[1];
    proof {
        assert(words@.map_values(|x: String| x@)[1] == target@);
    }
    let tn = target.as_str().unicode_len();
    let q = find_char(target.as_str(), 0, '?');
    if q >= tn {
        return Err(ProtocolError::NoParameters);
    }
    let pairs = query_pairs(target.as_str(), q + 1);
    Ok(pairs)
}

/// The value under `key` among the parsed pairs, the last occurrence
/// counting.
pub fn find_param(pairs: &Vec<(String, String)>, key: &str) -> (r: Option<String>)
    ensures
        r is Some ==> lookup_pair(pairs_view(pairs@), key@) == Some(r->Some_0@),
        r is None ==> lookup_pair(pairs_view(pairs@), key@) is None,
{
    let ghost pv = pairs_view(pairs@);
    let mut idx = pairs.len();
    proof {
        assert(pv.take(idx as int) =~= pv);
    }
    while idx > 0
        invariant
            idx <= pairs.len(),
            lookup_pair(pv, key@) == lookup_pair(pv.take(idx as int), key@),
        decreases idx,
    {
        idx -= 1;
        let hit = str_eq(pairs[idx].0.as_str(), key);
        proof {
            assert(pv.take(idx + 1).last() == pv[idx as int]);
            assert(pv.take(idx + 1).drop_last() =~= pv.take(idx as int));
            assert(pv[idx as int].0 == pairs@[idx as int].0@);
        }
        if hit {
            return Some(pairs[idx].1.clone());
        }
    }
    proof {
        assert(pv.take(0) =~= Seq::<(Seq<char>, Seq<char>)>::empty());
    }
    None
}

/// Extract the provider's reference from the callback request.
pub fn extract_ref(req: &Vec<String>) -> (r: Result<String, ProtocolError>)
    ensures
        r is Ok ==> extract_ref_spec(req.deep_view()) == Ok::<_, ProtocolError>(r->Ok_0@),
        r is Err ==> extract_ref_spec(req.deep_view()) == Err::<Seq<char>, _>(r->Err_0),
{
    match parse_request(req) {
        Err(e) => Err(e),
        Ok(pairs) => match find_param(&pairs, "ref") {
            Some(v) => Ok(v),
            None => Err(ProtocolError::MissingRef),
        },
    }
}

/// The fixed page sent back to the browser, whatever the parse outcome.
pub open spec fn confirmation_page_s() -> Seq<char> {
    "HTTP/1.1 200 OK\r\nContent-Type: text/html; charset=UTF-8\r\n\r\n<html>\r\n<body>\r\n<h2>Thank You!</h2>\r\n<p>You can now go back to the tool :)</p>\r\n</body>\r\n</html>\r\n"@
}

pub fn confirmation_page() -> (r: String)
    ensures
        r@ == confirmation_page_s(),
{
    String::from_str(
        "HTTP/1.1 200 OK\r\nContent-Type: text/html; charset=UTF-8\r\n\r\n<html>\r\n<body>\r\n<h2>Thank You!</h2>\r\n<p>You can now go back to the tool :)</p>\r\n</body>\r\n</html>\r\n",
    )
}

/// Process one callback request: the page to answer with — always the same
/// confirmation, decoupled from the parse outcome — and what the handshake
/// learns from the request.
pub fn handle_request(req: &Vec<String>) -> (r: (String, Result<String, ProtocolError>))
    ensures
        r.0@ == confirmation_page_s(),
        r.1 is Ok ==> extract_ref_spec(req.deep_view()) == Ok::<_, ProtocolError>(r.1->Ok_0@),
        r.1 is Err ==> extract_ref_spec(req.deep_view()) == Err::<Seq<char>, _>(r.1->Err_0),
{
    (confirmation_page(), extract_ref(req))
}

} // verus!
