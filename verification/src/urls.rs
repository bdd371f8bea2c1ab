use vstd::prelude::*;

verus! {

// ---------------------------------------------------------------------------
// Names for what the url crate computes.
//
// A parsed URL is carried around as its serialization, a plain string, so
// that every step around the parser stays verifiable. What the parser itself
// does is named, not restated: WHATWG URL parsing takes pages to write down.
// ---------------------------------------------------------------------------

/// The serialization of `s` parsed as an absolute URL, or `None` when `s`
/// does not parse.
pub uninterp spec fn url_parsed(s: Seq<char>) -> Option<Seq<char>>;

/// The serialization of the relative reference `rel` resolved against the
/// absolute URL `base`, or `None` when either step fails.
pub uninterp spec fn url_resolved(base: Seq<char>, rel: Seq<char>) -> Option<Seq<char>>;

/// The application/x-www-form-urlencoded encoding of `s`.
pub uninterp spec fn form_encoded(s: Seq<char>) -> Seq<char>;

/// Relies on url::Url::parse and url::Url::as_str: parsing is a function of
/// the input string alone, and `as_str` renders the parsed URL's
/// serialization.
#[verifier::external_body]
pub(crate) fn parse_absolute_url(s: &str) -> (r: Option<String>)
    ensures
        r is Some <==> url_parsed(s@) is Some,
        r matches Some(u) ==> url_parsed(s@) matches Some(t) && u@ == t,
{
    match url::Url::parse(s) {
        Ok(u) => Some(String::from(u.as_str())),
        Err(_) => None,
    }
}

/// Relies on url::Url::parse and url::Url::join: resolving a relative
/// reference against an absolute base is a function of the two strings
/// alone.
#[verifier::external_body]
pub(crate) fn resolve_against(base: &str, rel: &str) -> (r: Option<String>)
    ensures
        r is Some <==> url_resolved(base@, rel@) is Some,
        r matches Some(u) ==> url_resolved(base@, rel@) matches Some(t) && u@ == t,
{
    match url::Url::parse(base) {
        Ok(b) => match b.join(rel) {
            Ok(u) => Some(String::from(u.as_str())),
            Err(_) => None,
        },
        Err(_) => None,
    }
}

/// Relies on url::form_urlencoded::byte_serialize: the
/// application/x-www-form-urlencoded byte serializer, a function of the
/// input string alone.
#[verifier::external_body]
pub(crate) fn form_encode(s: &str) -> (r: String)
    ensures
        r@ == form_encoded(s@),
{
    url::form_urlencoded::byte_serialize(s.as_bytes()).collect()
}

// ---------------------------------------------------------------------------
// The parts of URL composition that are this library's own logic.
// ---------------------------------------------------------------------------

/// `s` with every leading `/` removed, so that a path never replaces the
/// base URL's own path wholesale when it is resolved.
pub open spec fn strip_slashes(s: Seq<char>) -> Seq<char>
    decreases s.len(),
{
    if s.len() > 0 && s[0] == '/' {
        strip_slashes(s.drop_first())
    } else {
        s
    }
}

/// Resolution ignores leading slashes: a path and the same path with one
/// more leading slash are joined to the same request URL.
pub proof fn lemma_leading_slash_irrelevant(path: Seq<char>)
    ensures
        strip_slashes(seq!['/'].add(path)) == strip_slashes(path),
{
    let padded = seq!['/'].add(path);
    assert(padded.len() > 0 && padded[0] == '/');
    assert(padded.drop_first() =~= path);
}

/// A path and the same path with a leading slash added resolve to the same
/// request URL against any base.
pub proof fn lemma_resolution_slash_insensitive(base: Seq<char>, path: Seq<char>)
    ensures
        url_resolved(base, strip_slashes(seq!['/'] + path)) == url_resolved(
            base,
            strip_slashes(path),
        ),
{
    lemma_leading_slash_irrelevant(path);
}

/// Stripping leading slashes is idempotent: once joined slash-safely, a
/// path would join to the same URL again.
pub proof fn lemma_strip_slashes_idempotent(path: Seq<char>)
    ensures
        strip_slashes(strip_slashes(path)) == strip_slashes(path),
    decreases path.len(),
{
    if path.len() > 0 && path[0] == '/' {
        lemma_strip_slashes_idempotent(path.drop_first());
    }
}

pub(crate) fn strip_leading_slashes(path: &str) -> (r: &str)
    ensures
        r@ == strip_slashes(path@),
{
    let n = path.unicode_len();
    let mut i: usize = 0;
    proof {
        assert(path@.skip(0) =~= path@);
    }
    loop
        invariant
            i <= n,
            n == path@.len(),
            strip_slashes(path@) == strip_slashes(path@.skip(i as int)),
        ensures
            i <= n,
            strip_slashes(path@) == path@.skip(i as int),
        decreases n - i,
    {
        if i >= n {
            break;
        }
        let c = path.get_char(i);
        if c != '/' {
            proof {
                assert(path@.skip(i as int)[0] == c);
            }
            break;
        }
        proof {
            assert(path@.skip(i as int).drop_first() =~= path@.skip(i as int + 1));
        }
        i = i + 1;
    }
    proof {
        assert(path@.subrange(i as int, n as int) =~= path@.skip(i as int));
    }
    path.substring_char(i, n)
}

/// The index of the first `#` in `s` at or after `i`, or `s.len()` when
/// there is none. In a serialized URL, where `#` is percent-encoded
/// everywhere else, this is where the fragment starts.
pub open spec fn find_hash(s: Seq<char>, i: int) -> int
    decreases s.len() - i,
{
    if i < s.len() {
        if s[i] == '#' {
            i
        } else {
            find_hash(s, i + 1)
        }
    } else {
        s.len() as int
    }
}

/// The index of the first `?` in `s` at or after `i` and before `end`, or
/// `end` when there is none.
pub open spec fn find_qmark_upto(s: Seq<char>, i: int, end: int) -> int
    decreases end - i,
{
    if i < end && i < s.len() {
        if s[i] == '?' {
            i
        } else {
            find_qmark_upto(s, i + 1, end)
        }
    } else {
        end
    }
}

/// One key/value pair rendered as it stands in a query string.
pub open spec fn encoded_pair(p: (Seq<char>, Seq<char>)) -> Seq<char> {
    form_encoded(p.0) + seq!['='] + form_encoded(p.1)
}

/// The query string `q` extended with `pairs`, one `key=value` unit per
/// pair, in the given order, separated by `&`. Nothing is merged or
/// deduplicated: a repeated key stays as many times as it was given.
pub open spec fn extend_query(q: Seq<char>, pairs: Seq<(Seq<char>, Seq<char>)>) -> Seq<char>
    decreases pairs.len(),
{
    if pairs.len() == 0 {
        q
    } else {
        let grown = if q.len() > 0 {
            q + seq!['&'] + encoded_pair(pairs[0])
        } else {
            encoded_pair(pairs[0])
        };
        extend_query(grown, pairs.drop_first())
    }
}

/// Two pairs always come out as two `key=value` units in the order given,
/// even when the keys are equal.
pub proof fn lemma_pairs_kept_in_order(p0: (Seq<char>, Seq<char>), p1: (Seq<char>, Seq<char>))
    ensures
        extend_query(Seq::empty(), seq![p0, p1]) == encoded_pair(p0) + seq!['&'] + encoded_pair(
            p1,
        ),
{
    let pairs = seq![p0, p1];
    let once = encoded_pair(p0);
    let twice = encoded_pair(p0) + seq!['&'] + encoded_pair(p1);
    assert(once.len() > 0);
    assert(pairs.drop_first() =~= seq![p1]);
    assert(seq![p1].drop_first() =~= Seq::<(Seq<char>, Seq<char>)>::empty());
    assert(extend_query(Seq::empty(), pairs) == extend_query(once, seq![p1]));
    assert(extend_query(once, seq![p1]) == extend_query(
        twice,
        Seq::<(Seq<char>, Seq<char>)>::empty(),
    ));
    assert(extend_query(twice, Seq::<(Seq<char>, Seq<char>)>::empty()) == twice);
}

/// The views of a vector of string pairs.
pub open spec fn pair_views(q: Seq<(String, String)>) -> Seq<(Seq<char>, Seq<char>)> {
    q.map_values(|p: (String, String)| (p.0@, p.1@))
}

/// `u` with `pairs` appended to its query: everything before the query is
/// kept, a `?` is placed (or kept), the pairs extend whatever query was
/// already there, and the fragment, if any, stays at the very end.
pub open spec fn with_query(u: Seq<char>, pairs: Seq<(Seq<char>, Seq<char>)>) -> Seq<char> {
    let f = find_hash(u, 0);
    let m = find_qmark_upto(u, 0, f);
    let q = if m < f {
        u.subrange(m + 1, f)
    } else {
        Seq::<char>::empty()
    };
    u.take(m) + seq!['?'] + extend_query(q, pairs) + u.skip(f)
}

pub(crate) fn append_query(u: &str, pairs: &Vec<(String, String)>) -> (r: String)
    ensures
        r@ == with_query(u@, pair_views(pairs@)),
{
    let n = u.unicode_len();
    let mut f: usize = 0;
    loop
        invariant
            f <= n,
            n == u@.len(),
            find_hash(u@, 0) == find_hash(u@, f as int),
        ensures
            f <= n,
            n == u@.len(),
            find_hash(u@, 0) == f as int,
        decreases n - f,
    {
        if f >= n {
            break;
        }
        let c = u.get_char(f);
        if c == '#' {
            break;
        }
        f = f + 1;
    }
    let mut m: usize = 0;
    loop
        invariant
            m <= f <= n,
            n == u@.len(),
            find_qmark_upto(u@, 0, f as int) == find_qmark_upto(u@, m as int, f as int),
        ensures
            m <= f,
            find_qmark_upto(u@, 0, f as int) == m as int,
        decreases f - m,
    {
        if m >= f {
            break;
        }
        let c = u.get_char(m);
        if c == '?' {
            break;
        }
        m = m + 1;
    }
    let mut out = String::from_str(u.substring_char(0, m));
    out.append("?");
    let mut qacc = if m < f {
        String::from_str(u.substring_char(m + 1, f))
    } else {
        String::new()
    };
    let ghost q0: Seq<char> = qacc@;
    let ghost views: Seq<(Seq<char>, Seq<char>)> = pair_views(pairs@);
    let mut i: usize = 0;
    proof {
        assert(views.skip(0) =~= views);
    }
    while i < pairs.len()
        invariant
            i <= pairs.len(),
            views == pair_views(pairs@),
            extend_query(q0, views) == extend_query(qacc@, views.skip(i as int)),
        decreases pairs.len() - i,
    {
        let ghost old_q: Seq<char> = qacc@;
        let ek = form_encode(pairs[i].0.as_str());
        let ev = form_encode(pairs[i].1.as_str());
        if !qacc.as_str().is_empty() {
            qacc.append("&");
        }
        qacc.append(ek.as_str());
        qacc.append("=");
        qacc.append(ev.as_str());
        proof {
            reveal_strlit("&");
            reveal_strlit("=");
            let rest = views.skip(i as int);
            assert(rest[0] == views[i as int]);
            assert(views[i as int] == (pairs@[i as int].0@, pairs@[i as int].1@));
            assert(encoded_pair(rest[0]) =~= ek@ + "="@ + ev@);
            if old_q.len() > 0 {
                assert(qacc@ =~= old_q + seq!['&'] + encoded_pair(rest[0]));
            } else {
                assert(qacc@ =~= encoded_pair(rest[0]));
            }
            assert(rest.drop_first() =~= views.skip(i as int + 1));
        }
        i = i + 1;
    }
    proof {
        assert(views.skip(i as int) =~= Seq::<(Seq<char>, Seq<char>)>::empty());
        assert(extend_query(qacc@, views.skip(i as int)) == qacc@);
        reveal_strlit("?");
    }
    out.append(qacc.as_str());
    out.append(u.substring_char(f, n));
    proof {
        assert(u@.subrange(f as int, n as int) =~= u@.skip(f as int));
        assert(out@ =~= u@.take(m as int) + seq!['?'] + extend_query(q0, views) + u@.skip(
            f as int,
        ));
    }
    out
}

} // verus!
