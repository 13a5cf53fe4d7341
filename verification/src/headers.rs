//! Parsing of the compact `-H "name:value name:value ..."` option into a
//! header map, together with the diagnostics that the parse collects.
//!
//! The input is split on single spaces; each token is split on its first
//! colon into a name and a value.  Tokens without a colon are dropped
//! silently; tokens whose name or value fails the structural header rules
//! are dropped with a diagnostic; a repeated name overwrites the earlier
//! value and reports what was overwritten.  The map itself is the `http`
//! crate's `HeaderMap` (re-exported by reqwest), kept behind a small set of
//! trusted wrappers.

use vstd::prelude::*;
use vstd::string::StrSliceExecFns;

use reqwest::header::HeaderMap;
use reqwest::header::HeaderName;
use reqwest::header::HeaderValue;

verus! {

// ---------------------------------------------------------------------------
// Structural rules for header names and values
// ---------------------------------------------------------------------------

/// The longest header name that `HeaderName::from_bytes` accepts.
pub const MAX_HEADER_NAME_LEN: usize = 65535;

/// Characters allowed in a header field name: the HTTP `tchar` set
/// (digits, letters, and `! # $ % & ' * + - . ^ _ ` | ~`).
pub open spec fn header_name_char(c: char) -> bool {
    let u = c as u32;
    (48 <= u && u <= 57)  // '0' ..= '9'
    || (97 <= u && u <= 122)  // 'a' ..= 'z'
    || (65 <= u && u <= 90)  // 'A' ..= 'Z'
    || u == 33  // '!'
    || (35 <= u && u <= 39)  // '#' '$' '%' '&' '\''
    || u == 42 || u == 43 || u == 45 || u == 46  // '*' '+' '-' '.'
    || u == 94 || u == 95 || u == 96  // '^' '_' '`'
    || u == 124 || u == 126  // '|' '~'
}

/// Characters allowed in a header field value: horizontal tab and every
/// character that is not an ASCII control character.
pub open spec fn header_value_char(c: char) -> bool {
    let u = c as u32;
    u == 9 || (u >= 32 && u != 127)
}

/// A header name is valid when it is non-empty, not longer than
/// `MAX_HEADER_NAME_LEN`, and made of name characters only.
pub open spec fn valid_header_name(s: Seq<char>) -> bool {
    1 <= s.len() <= MAX_HEADER_NAME_LEN
        && forall|i: int| 0 <= i < s.len() ==> header_name_char(#[trigger] s[i])
}

/// A header value is valid when it is made of value characters only
/// (the empty value is valid).
pub open spec fn valid_header_value(s: Seq<char>) -> bool {
    forall|i: int| 0 <= i < s.len() ==> header_value_char(#[trigger] s[i])
}

/// ASCII uppercase letters fold to lowercase; everything else is kept.
pub open spec fn fold_char(c: char) -> char {
    if 65 <= c as u32 && c as u32 <= 90 {
        ((c as u32) + 32) as char
    } else {
        c
    }
}

/// The canonical (lowercased) form of a header name.
pub open spec fn fold_name(s: Seq<char>) -> Seq<char> {
    s.map_values(|c: char| fold_char(c))
}

// ---------------------------------------------------------------------------
// The parse, as a mathematical function of the input characters
// ---------------------------------------------------------------------------

/// Index of the first occurrence of `c` in `s`, or `-1` when absent.
pub open spec fn first_at(s: Seq<char>, c: char) -> int
    decreases s.len(),
{
    if s.len() == 0 {
        -1
    } else if s[0] == c {
        0
    } else {
        let r = first_at(s.skip(1), c);
        if r < 0 {
            -1
        } else {
            r + 1
        }
    }
}

/// `first_at` really is the first occurrence.
pub proof fn lemma_first_at(s: Seq<char>, c: char)
    ensures
        first_at(s, c) == -1 ==> forall|i: int| 0 <= i < s.len() ==> s[i] != c,
        first_at(s, c) != -1 ==> {
            let f = first_at(s, c);
            0 <= f < s.len() && s[f] == c && forall|i: int| 0 <= i < f ==> s[i] != c
        },
    decreases s.len(),
{
    if s.len() == 0 {
    } else if s[0] == c {
    } else {
        let t = s.skip(1);
        lemma_first_at(t, c);
        let r = first_at(t, c);
        if r < 0 {
            assert forall|i: int| 0 <= i < s.len() implies s[i] != c by {
                if i > 0 {
                    assert(t[i - 1] == s[i]);
                }
            }
        } else {
            assert(t[r] == s[r + 1]);
            assert forall|i: int| 0 <= i < r + 1 implies s[i] != c by {
                if i > 0 {
                    assert(t[i - 1] == s[i]);
                }
            }
        }
    }
}

/// Splitting on single spaces: the empty input is one empty token, and
/// every space separates two tokens.
pub open spec fn split_on_spaces(s: Seq<char>) -> Seq<Seq<char>>
    decreases s.len(),
{
    let f = first_at(s, ' ');
    if 0 <= f < s.len() {
        seq![s.take(f)] + split_on_spaces(s.skip(f + 1))
    } else {
        seq![s]
    }
}

/// One diagnostic of the header-list parse, over plain character sequences.
pub enum HeaderDiagView {
    /// The token's name part is not a valid header name; the token is dropped.
    InvalidName { token: Seq<char> },
    /// The token's value part is not a valid header value; the token is dropped.
    InvalidValue { token: Seq<char> },
    /// The token's name was already present: the old value is replaced.
    Overwritten { name: Seq<char>, previous: Seq<char> },
}

/// The state of the parse: the entries accumulated so far, keyed by the
/// canonical (lowercased) name, and the diagnostics in the order collected.
pub struct HeaderParse {
    pub entries: Map<Seq<char>, Seq<char>>,
    pub diags: Seq<HeaderDiagView>,
}

/// How a single token changes the parse state.
pub open spec fn token_step(st: HeaderParse, tok: Seq<char>) -> HeaderParse {
    let f = first_at(tok, ':');
    if !(0 <= f < tok.len()) {
        st
    } else {
        let name = tok.take(f);
        let value = tok.skip(f + 1);
        if !valid_header_name(name) {
            HeaderParse {
                entries: st.entries,
                diags: st.diags.push(HeaderDiagView::InvalidName { token: tok }),
            }
        } else if !valid_header_value(value) {
            HeaderParse {
                entries: st.entries,
                diags: st.diags.push(HeaderDiagView::InvalidValue { token: tok }),
            }
        } else {
            let key = fold_name(name);
            if st.entries.contains_key(key) {
                HeaderParse {
                    entries: st.entries.insert(key, value),
                    diags: st.diags.push(
                        HeaderDiagView::Overwritten { name, previous: st.entries[key] },
                    ),
                }
            } else {
                HeaderParse { entries: st.entries.insert(key, value), diags: st.diags }
            }
        }
    }
}

/// Folding `token_step` over a token list.
pub open spec fn parse_tokens(st: HeaderParse, toks: Seq<Seq<char>>) -> HeaderParse
    decreases toks.len(),
{
    if toks.len() == 0 {
        st
    } else {
        parse_tokens(token_step(st, toks[0]), toks.skip(1))
    }
}

/// The whole parse of a raw `-H` option string.
pub open spec fn parse_header_list(s: Seq<char>) -> HeaderParse {
    parse_tokens(
        HeaderParse { entries: Map::empty(), diags: Seq::empty() },
        split_on_spaces(s),
    )
}

// ---------------------------------------------------------------------------
// The header map of the http crate, behind trusted items
// ---------------------------------------------------------------------------

#[verifier::external_type_specification]
#[verifier::external_body]
#[verifier::reject_recursive_types(T)]
pub struct ExHeaderMap<T>(reqwest::header::HeaderMap<T>);

#[verifier::external_type_specification]
#[verifier::external_body]
pub struct ExHeaderName(reqwest::header::HeaderName);

#[verifier::external_type_specification]
#[verifier::external_body]
pub struct ExHeaderValue(reqwest::header::HeaderValue);

/// The map with no entries.
pub open spec fn empty_headers() -> Map<Seq<char>, Seq<char>> {
    Map::empty()
}

/// The entries a `HeaderMap` holds, as a map from the canonical name to the
/// value, both as character sequences.
pub uninterp spec fn header_map_contents(m: HeaderMap) -> Map<Seq<char>, Seq<char>>;

/// How many values a `HeaderMap` stores (a key with several values counts
/// once per value; the maps built here hold one value per key).
pub uninterp spec fn header_map_entry_count(m: HeaderMap) -> nat;

/// The characters of a header name; `HeaderName` keeps names lowercased.
pub uninterp spec fn header_name_chars(n: HeaderName) -> Seq<char>;

/// The characters of a header value.
pub uninterp spec fn header_value_chars(v: HeaderValue) -> Seq<char>;

/// Relies on `HeaderMap::new` (the http crate, via reqwest): a fresh map
/// holds nothing.
#[verifier::external_body]
fn new_header_map() -> (r: HeaderMap)
    ensures
        header_map_contents(r) == empty_headers(),
        header_map_entry_count(r) == 0,
{
    HeaderMap::new()
}

/// Relies on `HeaderName::from_bytes` (the http crate, via reqwest): it
/// accepts exactly the byte strings that `valid_header_name` describes
/// (its table maps every other byte, and every byte of a multi-byte
/// character, to the invalid marker) and lowercases ASCII uppercase.
#[verifier::external_body]
fn header_name_from_str(s: &str) -> (r: Option<HeaderName>)
    ensures
        r is Some <==> valid_header_name(s@),
        r matches Some(n) ==> header_name_chars(n) == fold_name(s@),
{
    HeaderName::from_bytes(s.as_bytes()).ok()
}

/// Relies on `HeaderValue::from_bytes` (the http crate, via reqwest): it
/// accepts exactly the byte strings whose every byte is a tab or not a
/// control byte — over characters, what `valid_header_value` describes —
/// and stores the bytes unchanged.
#[verifier::external_body]
fn header_value_from_str(s: &str) -> (r: Option<HeaderValue>)
    ensures
        r is Some <==> valid_header_value(s@),
        r matches Some(v) ==> header_value_chars(v) == s@,
{
    HeaderValue::from_bytes(s.as_bytes()).ok()
}

/// Relies on `HeaderMap::try_insert` (the http crate, via reqwest): it
/// stores the value under the name, returns the value previously stored
/// there, and fails only for maps far larger than the bound required here
/// (its growth paths give up only past 6553 stored values, when doubling
/// the index table would pass the map's maximum size).
#[verifier::external_body]
fn header_map_insert(m: &mut HeaderMap, name: &HeaderName, value: HeaderValue) -> (prev: Option<
    HeaderValue,
>)
    requires
        header_map_entry_count(*old(m)) < 6554,
    ensures
        header_map_contents(*final(m)) == header_map_contents(*old(m)).insert(
            header_name_chars(*name),
            header_value_chars(value),
        ),
        prev is Some <==> header_map_contents(*old(m)).contains_key(header_name_chars(*name)),
        prev matches Some(p) ==> header_value_chars(p) == header_map_contents(*old(m))[
            header_name_chars(*name)],
        header_map_entry_count(*final(m)) <= header_map_entry_count(*old(m)) + 1,
        prev is Some ==> header_map_entry_count(*final(m)) <= header_map_entry_count(*old(m)),
{
    match m.try_insert(name, value) {
        Ok(prev) => prev,
        Err(_) => None,
    }
}

// ---------------------------------------------------------------------------
// Diagnostics, as values a caller can print or drop
// ---------------------------------------------------------------------------

/// One diagnostic of the header-list parse.  The caller decides whether and
/// where to report it; parsing itself never writes anywhere.
pub enum HeaderDiag {
    /// The token's name part is not a valid header name; the token was dropped.
    InvalidName { token: String },
    /// The token's value part is not a valid header value; the token was dropped.
    InvalidValue { token: String },
    /// The token's name was already present: `previous` was replaced.
    Overwritten { name: String, previous: HeaderValue },
}

impl View for HeaderDiag {
    type V = HeaderDiagView;

    open spec fn view(&self) -> HeaderDiagView {
        match self {
            HeaderDiag::InvalidName { token } => HeaderDiagView::InvalidName { token: token@ },
            HeaderDiag::InvalidValue { token } => HeaderDiagView::InvalidValue { token: token@ },
            HeaderDiag::Overwritten { name, previous } => HeaderDiagView::Overwritten {
                name: name@,
                previous: header_value_chars(*previous),
            },
        }
    }
}

impl DeepView for HeaderDiag {
    type V = HeaderDiagView;

    open spec fn deep_view(&self) -> HeaderDiagView {
        self.view()
    }
}

// ---------------------------------------------------------------------------
// The executable parser
// ---------------------------------------------------------------------------

/// Splitting off a token: when the characters before `j` hold no space and
/// `j` stops on a space (or on the end), the split starts with `s.take(j)`.
proof fn lemma_split_step(s: Seq<char>, j: int)
    requires
        0 <= j <= s.len(),
        forall|t: int| 0 <= t < j ==> s[t] != ' ',
        j < s.len() ==> s[j] == ' ',
    ensures
        j < s.len() ==> split_on_spaces(s) == seq![s.take(j)] + split_on_spaces(s.skip(j + 1)),
        j == s.len() ==> split_on_spaces(s) == seq![s],
{
    lemma_first_at(s, ' ');
    let f = first_at(s, ' ');
    if j < s.len() {
        assert(f != -1);
        assert(f == j);
    } else {
        assert(f == -1);
    }
}

/// Consuming the head of a token list is one `token_step`.
proof fn lemma_parse_tokens_step(st: HeaderParse, tok: Seq<char>, rest: Seq<Seq<char>>)
    ensures
        parse_tokens(st, seq![tok] + rest) == parse_tokens(token_step(st, tok), rest),
{
    let all = seq![tok] + rest;
    assert(all[0] == tok);
    assert(all.skip(1) =~= rest);
}

/// Runs one token through the map and the diagnostics list, exactly as
/// `token_step` describes.
fn process_token(tok: &str, map: &mut HeaderMap, diags: &mut Vec<HeaderDiag>)
    requires
        header_map_entry_count(*old(map)) < 6554,
    ensures
        ({
            let st1 = token_step(
                HeaderParse {
                    entries: header_map_contents(*old(map)),
                    diags: old(diags).deep_view(),
                },
                tok@,
            );
            header_map_contents(*final(map)) == st1.entries && final(diags).deep_view()
                == st1.diags
        }),
        header_map_entry_count(*final(map)) <= header_map_entry_count(*old(map)) + 1,
{
    let ghost st0 = HeaderParse {
        entries: header_map_contents(*map),
        diags: diags.deep_view(),
    };
    let tlen = tok.unicode_len();
    let mut i: usize = 0;
    while i < tlen && tok.get_char(i) != ':'
        invariant
            i <= tlen,
            tlen == tok@.len(),
            forall|t: int| 0 <= t < i ==> tok@[t] != ':',
        decreases tlen - i,
    {
        i += 1;
    }
    proof {
        lemma_first_at(tok@, ':');
    }
    if i == tlen {
        // No colon: the token contributes nothing, silently.
        return ;
    }
    let name_part = tok.substring_char(0, i);
    let value_part = tok.substring_char(i + 1, tlen);
    proof {
        assert(name_part@ =~= tok@.take(i as int));
        assert(value_part@ =~= tok@.skip(i as int + 1));
    }
    match header_name_from_str(name_part) {
        None => {
            diags.push(HeaderDiag::InvalidName { token: tok.to_owned() });
            proof {
                assert(diags.deep_view() =~= token_step(st0, tok@).diags);
            }
        },
        Some(name) => {
            match header_value_from_str(value_part) {
                None => {
                    diags.push(HeaderDiag::InvalidValue { token: tok.to_owned() });
                    proof {
                        assert(diags.deep_view() =~= token_step(st0, tok@).diags);
                    }
                },
                Some(value) => {
                    let prev = header_map_insert(map, &name, value);
                    match prev {
                        Some(p) => {
                            diags.push(
                                HeaderDiag::Overwritten {
                                    name: name_part.to_owned(),
                                    previous: p,
                                },
                            );
                            proof {
                                assert(diags.deep_view() =~= token_step(st0, tok@).diags);
                            }
                        },
                        None => {
                            proof {
                                assert(diags.deep_view() =~= token_step(st0, tok@).diags);
                            }
                        },
                    }
                },
            }
        },
    }
}

/// Parses a raw `-H` option string: tokens are separated by single spaces,
/// a token's name and value are separated by its first colon.  Returns the
/// accumulated map together with the diagnostics, in input order; an input
/// with no valid pair yields an empty map.  The length bound keeps the
/// header map far below the size at which the http crate's map gives up.
pub fn parse_headers_string(input: &str) -> (r: (HeaderMap, Vec<HeaderDiag>))
    requires
        input@.len() < 6554,
    ensures
        header_map_contents(r.0) == parse_header_list(input@).entries,
        r.1.deep_view() == parse_header_list(input@).diags,
{
    let len = input.unicode_len();
    let mut map = new_header_map();
    let mut diags: Vec<HeaderDiag> = Vec::new();
    let mut pos: usize = 0;
    proof {
        assert(diags.deep_view() =~= Seq::<HeaderDiagView>::empty());
        assert(input@.skip(0) =~= input@);
    }
    loop
        invariant_except_break
            pos <= len,
            len == input@.len(),
            len < 6554,
            header_map_entry_count(map) <= pos,
            parse_header_list(input@) == parse_tokens(
                HeaderParse { entries: header_map_contents(map), diags: diags.deep_view() },
                split_on_spaces(input@.skip(pos as int)),
            ),
        ensures
            header_map_contents(map) == parse_header_list(input@).entries,
            diags.deep_view() == parse_header_list(input@).diags,
        decreases len - pos,
    {
        let mut j: usize = pos;
        while j < len && input.get_char(j) != ' '
            invariant
                pos <= j <= len,
                len == input@.len(),
                forall|t: int| pos <= t < j ==> input@[t] != ' ',
            decreases len - j,
        {
            j += 1;
        }
        let tok = input.substring_char(pos, j);
        let ghost rem = input@.skip(pos as int);
        let ghost jj = j as int - pos as int;
        let ghost st0 = HeaderParse {
            entries: header_map_contents(map),
            diags: diags.deep_view(),
        };
        proof {
            assert forall|t: int| 0 <= t < jj implies rem[t] != ' ' by {
                assert(rem[t] == input@[t + pos as int]);
            }
            if j < len {
                assert(rem[jj] == input@[j as int]);
            }
            lemma_split_step(rem, jj);
            assert(tok@ =~= rem.take(jj));
            if j < len {
                assert(rem.skip(jj + 1) =~= input@.skip(j as int + 1));
                lemma_parse_tokens_step(st0, tok@, split_on_spaces(input@.skip(j as int + 1)));
            } else {
                assert(seq![tok@] + Seq::<Seq<char>>::empty() =~= seq![tok@]);
                lemma_parse_tokens_step(st0, tok@, Seq::empty());
            }
        }
        process_token(tok, &mut map, &mut diags);
        if j == len {
            break ;
        }
        pos = j + 1;
    }
    (map, diags)
}

// ---------------------------------------------------------------------------
// Laws of the parse
// ---------------------------------------------------------------------------

/// Law: a token without a colon is ignored silently: it changes neither
/// the entries nor the diagnostics.
pub proof fn lemma_token_without_colon_ignored(st: HeaderParse, tok: Seq<char>)
    requires
        !tok.contains(':'),
    ensures
        token_step(st, tok) == st,
{
    lemma_first_at(tok, ':');
    let f = first_at(tok, ':');
    if f != -1 {
        assert(tok[f] == ':');
        assert(tok.contains(':'));
    }
}

/// Law: the empty input parses to the empty map (present, but with no
/// entry) and no diagnostic.
pub proof fn lemma_parse_empty()
    ensures
        parse_header_list(Seq::empty()).entries == empty_headers(),
        parse_header_list(Seq::empty()).diags == Seq::<HeaderDiagView>::empty(),
{
    let e = Seq::<char>::empty();
    assert(first_at(e, ' ') == -1);
    assert(split_on_spaces(e) == seq![e]);
    assert(!e.contains(':'));
    let st0 = HeaderParse { entries: Map::empty(), diags: Seq::empty() };
    lemma_token_without_colon_ignored(st0, e);
    assert(seq![e].skip(1) =~= Seq::<Seq<char>>::empty());
    assert(seq![e][0] == e);
    assert(parse_tokens(st0, Seq::<Seq<char>>::empty()) == st0);
    assert(parse_tokens(st0, seq![e]) == parse_tokens(
        token_step(st0, seq![e][0]),
        seq![e].skip(1),
    ));
}

/// The token a name/value pair writes: `name:value`.
pub open spec fn pair_token(p: (Seq<char>, Seq<char>)) -> Seq<char> {
    p.0 + seq![':'] + p.1
}

/// The tokens of a pair list, in order.
pub open spec fn pair_tokens(pairs: Seq<(Seq<char>, Seq<char>)>) -> Seq<Seq<char>> {
    Seq::new(pairs.len(), |i: int| pair_token(pairs[i]))
}

/// The pairs' tokens joined with single spaces.
pub open spec fn join_pairs(pairs: Seq<(Seq<char>, Seq<char>)>) -> Seq<char>
    decreases pairs.len(),
{
    if pairs.len() == 0 {
        Seq::empty()
    } else if pairs.len() == 1 {
        pair_token(pairs[0])
    } else {
        pair_token(pairs[0]) + seq![' '] + join_pairs(pairs.skip(1))
    }
}

/// The keys the pairs put into the map: the folded names.
pub open spec fn pair_key_set(pairs: Seq<(Seq<char>, Seq<char>)>) -> Set<Seq<char>> {
    Set::new(
        |k: Seq<char>|
            exists|i: int| 0 <= i < pairs.len() && k == fold_name(#[trigger] pairs[i].0),
    )
}

proof fn lemma_pair_token_no_space(p: (Seq<char>, Seq<char>))
    requires
        valid_header_name(p.0),
        !p.1.contains(' '),
    ensures
        forall|t: int| 0 <= t < pair_token(p).len() ==> pair_token(p)[t] != ' ',
{
    let tok = pair_token(p);
    assert forall|t: int| 0 <= t < tok.len() implies tok[t] != ' ' by {
        if t < p.0.len() {
            assert(tok[t] == p.0[t]);
            assert(header_name_char(p.0[t]));
        } else if t == p.0.len() {
            assert(tok[t] == ':');
        } else {
            let u = t - p.0.len() - 1;
            assert(tok[t] == p.1[u]);
            if p.1[u] == ' ' {
                assert(p.1.contains(' '));
            }
        }
    }
}

proof fn lemma_token_step_pair(st: HeaderParse, p: (Seq<char>, Seq<char>))
    requires
        valid_header_name(p.0),
        valid_header_value(p.1),
    ensures
        token_step(st, pair_token(p)).entries == st.entries.insert(fold_name(p.0), p.1),
        !st.entries.contains_key(fold_name(p.0)) ==> token_step(st, pair_token(p)).diags
            == st.diags,
{
    let tok = pair_token(p);
    lemma_first_at(tok, ':');
    let f = first_at(tok, ':');
    assert(tok[p.0.len() as int] == ':');
    assert forall|t: int| 0 <= t < p.0.len() implies tok[t] != ':' by {
        assert(tok[t] == p.0[t]);
        assert(header_name_char(p.0[t]));
    }
    assert(f == p.0.len());
    assert(tok.take(f) =~= p.0);
    assert(tok.skip(f + 1) =~= p.1);
}

proof fn lemma_split_join(pairs: Seq<(Seq<char>, Seq<char>)>)
    requires
        pairs.len() > 0,
        forall|i: int| 0 <= i < pairs.len() ==> valid_header_name(#[trigger] pairs[i].0),
        forall|i: int| 0 <= i < pairs.len() ==> !(#[trigger] pairs[i].1).contains(' '),
    ensures
        split_on_spaces(join_pairs(pairs)) == pair_tokens(pairs),
    decreases pairs.len(),
{
    let s = join_pairs(pairs);
    let tok0 = pair_token(pairs[0]);
    lemma_pair_token_no_space(pairs[0]);
    if pairs.len() == 1 {
        lemma_split_step(s, s.len() as int);
        assert(pair_tokens(pairs) =~= seq![tok0]);
    } else {
        let rest = pairs.skip(1);
        assert forall|t: int| 0 <= t < tok0.len() implies s[t] != ' ' by {
            assert(s[t] == tok0[t]);
        }
        assert(s[tok0.len() as int] == ' ');
        lemma_split_step(s, tok0.len() as int);
        assert(s.take(tok0.len() as int) =~= tok0);
        assert(s.skip(tok0.len() as int + 1) =~= join_pairs(rest));
        assert forall|i: int| 0 <= i < rest.len() implies valid_header_name(
            #[trigger] rest[i].0,
        ) && !rest[i].1.contains(' ') by {
            assert(rest[i] == pairs[i + 1]);
        }
        lemma_split_join(rest);
        assert(seq![tok0] + pair_tokens(rest) =~= pair_tokens(pairs));
    }
}

proof fn lemma_parse_tokens_pairs(st: HeaderParse, pairs: Seq<(Seq<char>, Seq<char>)>)
    requires
        st.entries.dom().finite(),
        forall|i: int| 0 <= i < pairs.len() ==> valid_header_name(#[trigger] pairs[i].0),
        forall|i: int| 0 <= i < pairs.len() ==> valid_header_value(#[trigger] pairs[i].1),
        forall|i: int, j: int|
            0 <= i < j < pairs.len() ==> fold_name(pairs[i].0) != fold_name(pairs[j].0),
        forall|i: int|
            0 <= i < pairs.len() ==> !st.entries.contains_key(fold_name(#[trigger] pairs[i].0)),
    ensures
        ({
            let st1 = parse_tokens(st, pair_tokens(pairs));
            st1.diags == st.diags && st1.entries.dom().finite() && st1.entries.dom()
                == st.entries.dom() + pair_key_set(pairs) && (forall|i: int|
                0 <= i < pairs.len() ==> st1.entries.contains_key(
                    fold_name(#[trigger] pairs[i].0),
                ) && st1.entries[fold_name(pairs[i].0)] == pairs[i].1) && (forall|k: Seq<char>|
                #![trigger st.entries.contains_key(k)]
                !pair_key_set(pairs).contains(k) && st.entries.contains_key(k)
                    ==> st1.entries.contains_key(k) && st1.entries[k] == st.entries[k])
        }),
    decreases pairs.len(),
{
    let toks = pair_tokens(pairs);
    let st1 = parse_tokens(st, toks);
    if pairs.len() == 0 {
        assert(st.entries.dom() + pair_key_set(pairs) =~= st.entries.dom());
    } else {
        let rest = pairs.skip(1);
        let key0 = fold_name(pairs[0].0);
        let tok0 = pair_token(pairs[0]);
        lemma_token_step_pair(st, pairs[0]);
        let st_mid = token_step(st, tok0);
        assert(toks[0] == tok0);
        assert(toks.skip(1) =~= pair_tokens(rest));
        assert forall|i: int| 0 <= i < rest.len() implies valid_header_name(#[trigger] rest[i].0)
            && valid_header_value(rest[i].1) && !st_mid.entries.contains_key(
            fold_name(rest[i].0),
        ) by {
            assert(rest[i] == pairs[i + 1]);
            assert(fold_name(pairs[0].0) != fold_name(pairs[i + 1].0));
        }
        assert forall|i: int, j: int| 0 <= i < j < rest.len() implies fold_name(rest[i].0)
            != fold_name(rest[j].0) by {
            assert(rest[i] == pairs[i + 1]);
            assert(rest[j] == pairs[j + 1]);
        }
        lemma_parse_tokens_pairs(st_mid, rest);
        let st2 = parse_tokens(st_mid, pair_tokens(rest));
        assert(st1 == st2);
        // the key sets line up
        assert(pair_key_set(pairs) =~= pair_key_set(rest).insert(key0)) by {
            assert forall|k: Seq<char>| pair_key_set(pairs).contains(k) implies pair_key_set(
                rest,
            ).insert(key0).contains(k) by {
                let i = choose|i: int| 0 <= i < pairs.len() && k == fold_name(pairs[i].0);
                if i > 0 {
                    assert(rest[i - 1] == pairs[i]);
                    assert(0 <= i - 1 < rest.len() && k == fold_name(rest[i - 1].0));
                }
            }
            assert forall|k: Seq<char>| pair_key_set(rest).insert(key0).contains(k)
                implies pair_key_set(pairs).contains(k) by {
                if k == key0 {
                    assert(k == fold_name(pairs[0].0));
                } else {
                    let i = choose|i: int| 0 <= i < rest.len() && k == fold_name(rest[i].0);
                    assert(rest[i] == pairs[i + 1]);
                    assert(0 <= i + 1 < pairs.len() && k == fold_name(pairs[i + 1].0));
                }
            }
        }
        assert(st1.entries.dom() =~= st.entries.dom() + pair_key_set(pairs)) by {
            assert(st_mid.entries.dom() == st.entries.dom().insert(key0));
        }
        // key0 is none of the later keys, so its entry survives
        assert(!pair_key_set(rest).contains(key0)) by {
            if pair_key_set(rest).contains(key0) {
                let i = choose|i: int| 0 <= i < rest.len() && key0 == fold_name(rest[i].0);
                assert(rest[i] == pairs[i + 1]);
                assert(fold_name(pairs[0].0) != fold_name(pairs[i + 1].0));
            }
        }
        assert(st_mid.entries.contains_key(key0));
        assert(st1.entries.contains_key(key0) && st1.entries[key0] == pairs[0].1);
        assert forall|i: int| 0 <= i < pairs.len() implies st1.entries.contains_key(
            fold_name(#[trigger] pairs[i].0),
        ) && st1.entries[fold_name(pairs[i].0)] == pairs[i].1 by {
            if i > 0 {
                assert(rest[i - 1] == pairs[i]);
            }
        }
        assert forall|k: Seq<char>|
            !pair_key_set(pairs).contains(k) && st.entries.contains_key(k)
            implies st1.entries.contains_key(k) && st1.entries[k] == st.entries[k] by {
            assert(k != key0);
            assert(st_mid.entries.contains_key(k) && st_mid.entries[k] == st.entries[k]);
        }
    }
}

/// Law: an input made of valid `name:value` tokens joined with single
/// spaces — names valid and folding to pairwise distinct keys, values
/// valid and holding no space — parses with no diagnostic to exactly
/// those pairs: the keys are exactly the folded names, and each folded
/// name looks up its pair's value.
pub proof fn lemma_parse_valid_pairs(pairs: Seq<(Seq<char>, Seq<char>)>)
    requires
        pairs.len() > 0,
        forall|i: int| 0 <= i < pairs.len() ==> valid_header_name(#[trigger] pairs[i].0),
        forall|i: int| 0 <= i < pairs.len() ==> valid_header_value(#[trigger] pairs[i].1),
        forall|i: int| 0 <= i < pairs.len() ==> !(#[trigger] pairs[i].1).contains(' '),
        forall|i: int, j: int|
            0 <= i < j < pairs.len() ==> fold_name(pairs[i].0) != fold_name(pairs[j].0),
    ensures
        ({
            let st = parse_header_list(join_pairs(pairs));
            st.diags == Seq::<HeaderDiagView>::empty() && st.entries.dom() == pair_key_set(pairs)
                && (forall|i: int|
                0 <= i < pairs.len() ==> st.entries.contains_key(fold_name(#[trigger] pairs[i].0))
                    && st.entries[fold_name(pairs[i].0)] == pairs[i].1)
        }),
{
    lemma_split_join(pairs);
    let st0 = HeaderParse { entries: Map::empty(), diags: Seq::empty() };
    lemma_parse_tokens_pairs(st0, pairs);
    assert(st0.entries.dom() + pair_key_set(pairs) =~= pair_key_set(pairs));
}

} // verus!
