use vstd::prelude::*;

use crate::urls::pair_views;

verus! {

// ---------------------------------------------------------------------------
// The grammar of the JSON bodies the client decodes: an object whose values
// are strings, with the usual whitespace and the single-character escapes.
// The functions here define the grammar; the scanners below are proved to
// return exactly what the grammar says.
// ---------------------------------------------------------------------------

/// The whitespace JSON allows between tokens.
pub open spec fn is_json_ws(c: char) -> bool {
    c == ' ' || c == '\t' || c == '\n' || c == '\r'
}

/// The first index at or after `i` that holds something other than JSON
/// whitespace, or `s.len()` when only whitespace is left.
pub open spec fn skip_ws(s: Seq<char>, i: int) -> int
    decreases s.len() - i,
{
    if i < s.len() {
        if is_json_ws(s[i]) {
            skip_ws(s, i + 1)
        } else {
            i
        }
    } else {
        s.len() as int
    }
}

pub proof fn lemma_skip_ws_bounds(s: Seq<char>, i: int)
    requires
        0 <= i <= s.len(),
    ensures
        i <= skip_ws(s, i) <= s.len(),
    decreases s.len() - i,
{
    if i < s.len() && is_json_ws(s[i]) {
        lemma_skip_ws_bounds(s, i + 1);
    }
}

/// The character an escape `\c` stands for, for the escapes the decoder
/// accepts.
pub open spec fn unescaped(c: char) -> Option<char> {
    if c == '"' {
        Some('"')
    } else if c == '\\' {
        Some('\\')
    } else if c == '/' {
        Some('/')
    } else if c == 'b' {
        Some('\u{8}')
    } else if c == 'f' {
        Some('\u{c}')
    } else if c == 'n' {
        Some('\n')
    } else if c == 'r' {
        Some('\r')
    } else if c == 't' {
        Some('\t')
    } else {
        None
    }
}

/// The body of a string literal, read from just after its opening quote:
/// the unescaped text and the index just past the closing quote.
pub open spec fn parse_str_body(s: Seq<char>, i: int) -> Option<(Seq<char>, int)>
    decreases s.len() - i,
{
    if i < s.len() {
        let c = s[i];
        if c == '"' {
            Some((Seq::empty(), i + 1))
        } else if c == '\\' {
            if i + 1 < s.len() {
                match unescaped(s[i + 1]) {
                    Some(u) => match parse_str_body(s, i + 2) {
                        Some((t, j)) => Some((seq![u] + t, j)),
                        None => None,
                    },
                    None => None,
                }
            } else {
                None
            }
        } else if (c as u32) < 32 {
            None
        } else {
            match parse_str_body(s, i + 1) {
                Some((t, j)) => Some((seq![c] + t, j)),
                None => None,
            }
        }
    } else {
        None
    }
}

pub proof fn lemma_parse_str_body_bounds(s: Seq<char>, i: int)
    requires
        0 <= i <= s.len(),
    ensures
        parse_str_body(s, i) matches Some(p) ==> i < p.1 <= s.len(),
    decreases s.len() - i,
{
    if i < s.len() {
        if s[i] == '"' {
        } else if s[i] == '\\' {
            if i + 1 < s.len() && unescaped(s[i + 1]) is Some {
                lemma_parse_str_body_bounds(s, i + 2);
            }
        } else if (s[i] as u32) < 32 {
        } else {
            lemma_parse_str_body_bounds(s, i + 1);
        }
    }
}

/// One `"key" : "value"` member, read from the opening quote of its key:
/// the key, the value, and the index just past the value's closing quote.
pub open spec fn parse_member(s: Seq<char>, i: int) -> Option<((Seq<char>, Seq<char>), int)> {
    if 0 <= i < s.len() && s[i] == '"' {
        match parse_str_body(s, i + 1) {
            Some((k, j)) => {
                let c = skip_ws(s, j);
                if c < s.len() && s[c] == ':' {
                    let v0 = skip_ws(s, c + 1);
                    if v0 < s.len() && s[v0] == '"' {
                        match parse_str_body(s, v0 + 1) {
                            Some((v, e)) => Some(((k, v), e)),
                            None => None,
                        }
                    } else {
                        None
                    }
                } else {
                    None
                }
            },
            None => None,
        }
    } else {
        None
    }
}

pub proof fn lemma_parse_member_bounds(s: Seq<char>, i: int)
    requires
        0 <= i <= s.len(),
    ensures
        parse_member(s, i) matches Some(p) ==> i < p.1 <= s.len(),
{
    if 0 <= i < s.len() && s[i] == '"' {
        lemma_parse_str_body_bounds(s, i + 1);
        if parse_str_body(s, i + 1) is Some {
            let (k, j) = parse_str_body(s, i + 1)->0;
            lemma_skip_ws_bounds(s, j);
            let c = skip_ws(s, j);
            if c < s.len() && s[c] == ':' {
                lemma_skip_ws_bounds(s, c + 1);
                let v0 = skip_ws(s, c + 1);
                if v0 < s.len() && s[v0] == '"' {
                    lemma_parse_str_body_bounds(s, v0 + 1);
                }
            }
        }
    }
}

/// A comma-separated run of members together with the `}` that closes the
/// object: the members in order and the index just past the brace.
pub open spec fn parse_members(s: Seq<char>, i: int) -> Option<(Seq<(Seq<char>, Seq<char>)>, int)>
    decreases s.len() - i,
{
    if 0 <= i <= s.len() {
        match parse_member(s, i) {
            Some((kv, j)) => {
                let a = skip_ws(s, j);
                if a < s.len() && s[a] == ',' {
                    let nx = skip_ws(s, a + 1);
                    proof {
                        lemma_parse_member_bounds(s, i);
                        lemma_skip_ws_bounds(s, j);
                        lemma_skip_ws_bounds(s, a + 1);
                    }
                    match parse_members(s, nx) {
                        Some((rest, e)) => Some((seq![kv] + rest, e)),
                        None => None,
                    }
                } else if a < s.len() && s[a] == '}' {
                    Some((seq![kv], a + 1))
                } else {
                    None
                }
            },
            None => None,
        }
    } else {
        None
    }
}

/// The whole body read as a JSON object of string fields: the fields in
/// order, provided nothing but whitespace follows the closing brace.
pub open spec fn parse_object(s: Seq<char>) -> Option<Seq<(Seq<char>, Seq<char>)>> {
    let i = skip_ws(s, 0);
    if i < s.len() && s[i] == '{' {
        let j = skip_ws(s, i + 1);
        if j < s.len() && s[j] == '}' {
            if skip_ws(s, j + 1) == s.len() {
                Some(Seq::empty())
            } else {
                None
            }
        } else {
            match parse_members(s, j) {
                Some((fields, e)) => {
                    if skip_ws(s, e) == s.len() {
                        Some(fields)
                    } else {
                        None
                    }
                },
                None => None,
            }
        }
    } else {
        None
    }
}

// ---------------------------------------------------------------------------
// Looking a field up, with the duplicate rule the decoder applies: a field
// given twice is an error, a field the caller never asked for is ignored.
// ---------------------------------------------------------------------------

/// The first value under `key`, if any.
pub open spec fn lookup(fields: Seq<(Seq<char>, Seq<char>)>, key: Seq<char>) -> Option<Seq<char>>
    decreases fields.len(),
{
    if fields.len() == 0 {
        None
    } else if fields[0].0 == key {
        Some(fields[0].1)
    } else {
        lookup(fields.drop_first(), key)
    }
}

/// How many fields are named `key`.
pub open spec fn count_key(fields: Seq<(Seq<char>, Seq<char>)>, key: Seq<char>) -> nat
    decreases fields.len(),
{
    if fields.len() == 0 {
        0
    } else {
        (if fields[0].0 == key {
            1nat
        } else {
            0nat
        }) + count_key(fields.drop_first(), key)
    }
}

/// The value of the one field named `key`: `None` when the field is
/// missing or given more than once.
pub open spec fn string_field(fields: Seq<(Seq<char>, Seq<char>)>, key: Seq<char>) -> Option<
    Seq<char>,
> {
    if count_key(fields, key) == 1 {
        lookup(fields, key)
    } else {
        None
    }
}

// ---------------------------------------------------------------------------
// The scanners: executable readers of the same grammar.
// ---------------------------------------------------------------------------

fn ws_end(s: &str, i: usize) -> (r: usize)
    requires
        i <= s@.len(),
    ensures
        r as int == skip_ws(s@, i as int),
        i <= r <= s@.len(),
{
    let n = s.unicode_len();
    let mut j = i;
    loop
        invariant
            i <= j <= n,
            n == s@.len(),
            skip_ws(s@, i as int) == skip_ws(s@, j as int),
        ensures
            i <= j <= n,
            skip_ws(s@, i as int) == j as int,
        decreases n - j,
    {
        if j >= n {
            break;
        }
        let c = s.get_char(j);
        if !(c == ' ' || c == '\t' || c == '\n' || c == '\r') {
            break;
        }
        j = j + 1;
    }
    j
}

fn scan_string(s: &str, i: usize) -> (r: Option<(String, usize)>)
    requires
        i <= s@.len(),
    ensures
        r is Some <==> parse_str_body(s@, i as int) is Some,
        r matches Some(p) ==> parse_str_body(s@, i as int) matches Some(q) && p.0@ == q.0
            && p.1 as int == q.1 && i < p.1 <= s@.len(),
{
    let n = s.unicode_len();
    let mut out = String::new();
    let mut j = i;
    loop
        invariant
            i <= j <= n,
            n == s@.len(),
            (match parse_str_body(s@, j as int) {
                Some(q) => parse_str_body(s@, i as int) == Some((out@ + q.0, q.1)),
                None => parse_str_body(s@, i as int) is None,
            }),
        decreases n - j,
    {
        if j >= n {
            return None;
        }
        let c = s.get_char(j);
        if c == '"' {
            proof {
                assert(out@ + Seq::<char>::empty() =~= out@);
                lemma_parse_str_body_bounds(s@, i as int);
            }
            return Some((out, j + 1));
        } else if c == '\\' {
            if j + 1 >= n {
                return None;
            }
            let c2 = s.get_char(j + 1);
            let ghost old_out = out@;
            if c2 == '"' || c2 == '\\' || c2 == '/' {
                proof {
                    assert(s@.subrange(j + 1, j + 2) =~= seq![s@[j as int + 1]]);
                }
                out.append(s.substring_char(j + 1, j + 2));
            } else if c2 == 'b' {
                out.append("\u{8}");
                proof {
                    reveal_strlit("\u{8}");
                }
            } else if c2 == 'f' {
                out.append("\u{c}");
                proof {
                    reveal_strlit("\u{c}");
                }
            } else if c2 == 'n' {
                out.append("\n");
                proof {
                    reveal_strlit("\n");
                }
            } else if c2 == 'r' {
                out.append("\r");
                proof {
                    reveal_strlit("\r");
                }
            } else if c2 == 't' {
                out.append("\t");
                proof {
                    reveal_strlit("\t");
                }
            } else {
                return None;
            }
            proof {
                let u = unescaped(s@[j as int + 1])->0;
                assert(out@ =~= old_out + seq![u]);
                if parse_str_body(s@, j as int + 2) is Some {
                    let q = parse_str_body(s@, j as int + 2)->0;
                    assert(old_out + (seq![u] + q.0) =~= out@ + q.0);
                }
            }
            j = j + 2;
        } else if (c as u32) < 32 {
            return None;
        } else {
            let ghost old_out = out@;
            proof {
                assert(s@.subrange(j as int, j as int + 1) =~= seq![s@[j as int]]);
            }
            out.append(s.substring_char(j, j + 1));
            proof {
                assert(out@ =~= old_out + seq![s@[j as int]]);
                if parse_str_body(s@, j as int + 1) is Some {
                    let q = parse_str_body(s@, j as int + 1)->0;
                    assert(old_out + (seq![s@[j as int]] + q.0) =~= out@ + q.0);
                }
            }
            j = j + 1;
        }
    }
}

fn scan_member(s: &str, i: usize) -> (r: Option<((String, String), usize)>)
    requires
        i <= s@.len(),
    ensures
        r is Some <==> parse_member(s@, i as int) is Some,
        r matches Some(p) ==> parse_member(s@, i as int) matches Some(q) && p.0.0@ == q.0.0
            && p.0.1@ == q.0.1 && p.1 as int == q.1 && i < p.1 <= s@.len(),
{
    let n = s.unicode_len();
    if i >= n {
        return None;
    }
    if s.get_char(i) != '"' {
        return None;
    }
    let k = match scan_string(s, i + 1) {
        Some(p) => p,
        None => {
            return None;
        },
    };
    let c = ws_end(s, k.1);
    if c >= n {
        return None;
    }
    if s.get_char(c) != ':' {
        return None;
    }
    let v0 = ws_end(s, c + 1);
    if v0 >= n {
        return None;
    }
    if s.get_char(v0) != '"' {
        return None;
    }
    match scan_string(s, v0 + 1) {
        Some(v) => Some(((k.0, v.0), v.1)),
        None => None,
    }
}

fn scan_members(s: &str, i: usize) -> (r: Option<(Vec<(String, String)>, usize)>)
    requires
        i <= s@.len(),
    ensures
        r is Some <==> parse_members(s@, i as int) is Some,
        r matches Some(p) ==> parse_members(s@, i as int) matches Some(q) && pair_views(p.0@)
            == q.0 && p.1 as int == q.1 && p.1 <= s@.len(),
{
    let n = s.unicode_len();
    let mut acc: Vec<(String, String)> = Vec::new();
    let mut j = i;
    proof {
        if parse_members(s@, i as int) is Some {
            let q = parse_members(s@, i as int)->0;
            assert(pair_views(acc@) + q.0 =~= q.0);
        }
    }
    loop
        invariant
            i <= j <= n,
            n == s@.len(),
            (match parse_members(s@, j as int) {
                Some(q) => parse_members(s@, i as int) == Some((pair_views(acc@) + q.0, q.1)),
                None => parse_members(s@, i as int) is None,
            }),
        decreases n - j,
    {
        let m = match scan_member(s, j) {
            Some(p) => p,
            None => {
                return None;
            },
        };
        let ghost kvv: (Seq<char>, Seq<char>) = (m.0.0@, m.0.1@);
        let a = ws_end(s, m.1);
        if a >= n {
            return None;
        }
        let c = s.get_char(a);
        if c == ',' {
            let nx = ws_end(s, a + 1);
            let ghost old_acc = acc@;
            acc.push(m.0);
            proof {
                assert(pair_views(acc@) =~= pair_views(old_acc).push(kvv));
                if parse_members(s@, nx as int) is Some {
                    let q = parse_members(s@, nx as int)->0;
                    assert(pair_views(old_acc) + (seq![kvv] + q.0) =~= pair_views(acc@) + q.0);
                }
            }
            j = nx;
        } else if c == '}' {
            let ghost old_acc = acc@;
            acc.push(m.0);
            proof {
                assert(pair_views(acc@) =~= pair_views(old_acc).push(kvv));
                assert(pair_views(old_acc) + seq![kvv] =~= pair_views(acc@));
            }
            return Some((acc, a + 1));
        } else {
            return None;
        }
    }
}

pub(crate) fn scan_object(s: &str) -> (r: Option<Vec<(String, String)>>)
    ensures
        r is Some <==> parse_object(s@) is Some,
        r matches Some(fs) ==> parse_object(s@) matches Some(fv) && pair_views(fs@) == fv,
{
    let n = s.unicode_len();
    let i = ws_end(s, 0);
    if i >= n {
        return None;
    }
    if s.get_char(i) != '{' {
        return None;
    }
    let j = ws_end(s, i + 1);
    if j < n && s.get_char(j) == '}' {
        if ws_end(s, j + 1) == n {
            let fs: Vec<(String, String)> = Vec::new();
            proof {
                assert(pair_views(fs@) =~= Seq::<(Seq<char>, Seq<char>)>::empty());
            }
            Some(fs)
        } else {
            None
        }
    } else {
        match scan_members(s, j) {
            Some(p) => {
                if ws_end(s, p.1) == n {
                    Some(p.0)
                } else {
                    None
                }
            },
            None => None,
        }
    }
}

/// The value of the one field named `key` among `fields`: `None` when the
/// field is missing or appears more than once.
pub(crate) fn field_string(fields: &Vec<(String, String)>, key: &String) -> (r: Option<String>)
    ensures
        r is Some <==> string_field(pair_views(fields@), key@) is Some,
        r matches Some(v) ==> string_field(pair_views(fields@), key@) matches Some(t) && v@ == t,
{
    let ghost views = pair_views(fields@);
    let mut cnt: usize = 0;
    let mut found: Option<String> = None;
    let mut i: usize = 0;
    proof {
        assert(views.skip(0) =~= views);
    }
    while i < fields.len()
        invariant
            i <= fields.len(),
            views == pair_views(fields@),
            cnt <= i,
            count_key(views, key@) == cnt + count_key(views.skip(i as int), key@),
            (match found {
                Some(v) => cnt >= 1 && lookup(views, key@) == Some(v@),
                None => cnt == 0 && lookup(views, key@) == lookup(views.skip(i as int), key@),
            }),
        decreases fields.len() - i,
    {
        proof {
            assert(views.skip(i as int)[0] == views[i as int]);
            assert(views.skip(i as int).drop_first() =~= views.skip(i as int + 1));
        }
        if fields[i].0 == *key {
            cnt = cnt + 1;
            if cnt == 1 {
                found = Some(fields[i].1.clone());
            }
        }
        i = i + 1;
    }
    proof {
        assert(views.skip(i as int) =~= Seq::<(Seq<char>, Seq<char>)>::empty());
    }
    if cnt == 1 {
        found
    } else {
        None
    }
}

} // verus!
