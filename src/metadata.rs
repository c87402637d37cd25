//! Client metadata: the headers sent with every request, and the bearer
//! token carried by an `authorization` header.

use vstd::prelude::*;
use vstd::utf8::char_u32_cast;

verus! {

/// Characters with the Unicode `White_Space` property, which `str::trim`
/// removes.
pub open spec fn is_white_space(c: char) -> bool {
    let u = c as u32;
    ||| 0x09 <= u <= 0x0D
    ||| u == 0x20
    ||| u == 0x85
    ||| u == 0xA0
    ||| u == 0x1680
    ||| 0x2000 <= u <= 0x200A
    ||| u == 0x2028
    ||| u == 0x2029
    ||| u == 0x202F
    ||| u == 0x205F
    ||| u == 0x3000
}

/// `s` without its leading white space.
pub open spec fn trim_start(s: Seq<char>) -> Seq<char>
    decreases s.len(),
{
    if s.len() > 0 && is_white_space(s[0]) {
        trim_start(s.drop_first())
    } else {
        s
    }
}

/// `s` without its trailing white space.
pub open spec fn trim_end(s: Seq<char>) -> Seq<char>
    decreases s.len(),
{
    if s.len() > 0 && is_white_space(s.last()) {
        trim_end(s.drop_last())
    } else {
        s
    }
}

/// `s` without leading and trailing white space.
pub open spec fn trim(s: Seq<char>) -> Seq<char> {
    trim_end(trim_start(s))
}

/// The code of `c` once an ASCII capital letter is made small.
pub open spec fn ascii_lower(c: char) -> u32 {
    if 0x41 <= c as u32 <= 0x5A {
        (c as u32 + 0x20) as u32
    } else {
        c as u32
    }
}

/// `s` with ASCII capital letters made small, by character codes.
pub open spec fn ascii_lowered(s: Seq<char>) -> Seq<u32> {
    s.map_values(|c: char| ascii_lower(c))
}

/// `s` is `head`, then one `c`, then `tail`, and `head` holds no `c`: the
/// split of `s` at its first `c`.
pub open spec fn splits_at_first(s: Seq<char>, c: char, head: Seq<char>, tail: Seq<char>) -> bool {
    &&& s == head + seq![c] + tail
    &&& !head.contains(c)
}

/// The bearer token carried by an `authorization` value: the value is
/// trimmed, split at its first space, the part before it must be `bearer` in
/// any ASCII case, and the trimmed rest, when not empty, is the token.
pub open spec fn bearer_token(value: Seq<char>) -> Option<Seq<char>> {
    let t = trim(value);
    if exists|head: Seq<char>, tail: Seq<char>| splits_at_first(t, ' ', head, tail) {
        let (head, tail) = choose|head: Seq<char>, tail: Seq<char>| splits_at_first(t, ' ', head, tail);
        let token = trim(tail);
        if ascii_lowered(head) == ascii_lowered("bearer"@) && token.len() > 0 {
            Some(token)
        } else {
            None
        }
    } else {
        None
    }
}

/// A string has one split at its first `c`.
pub proof fn lemma_split_at_first_unique(
    s: Seq<char>,
    c: char,
    h1: Seq<char>,
    t1: Seq<char>,
    h2: Seq<char>,
    t2: Seq<char>,
)
    requires
        splits_at_first(s, c, h1, t1),
        splits_at_first(s, c, h2, t2),
    ensures
        h1 == h2,
        t1 == t2,
{
    if h1.len() < h2.len() {
        assert(s[h1.len() as int] == c);
        assert(h2[h1.len() as int] == s[h1.len() as int]);
        assert(false);
    } else if h2.len() < h1.len() {
        assert(s[h2.len() as int] == c);
        assert(h1[h2.len() as int] == s[h2.len() as int]);
        assert(false);
    }
    assert(h1 =~= s.take(h1.len() as int));
    assert(h2 =~= s.take(h2.len() as int));
    assert(t1 =~= s.skip(h1.len() as int + 1));
    assert(t2 =~= s.skip(h2.len() as int + 1));
}

/// Relies on `str::trim`: the slice without leading and trailing characters
/// of the Unicode `White_Space` property.
#[verifier::external_body]
fn trim_white_space(s: &str) -> (r: &str)
    ensures
        r@ == trim(s@),
{
    s.trim()
}

/// Relies on `str::split_once` with a character pattern: the parts before
/// and after the first occurrence of `c`, or `None` when `s` holds no `c`.
#[verifier::external_body]
fn split_once_char(s: &str, c: char) -> (r: Option<(&str, &str)>)
    ensures
        match r {
            Some((head, tail)) => splits_at_first(s@, c, head@, tail@),
            None => !s@.contains(c),
        },
{
    s.split_once(c)
}

/// Relies on `str::eq_ignore_ascii_case`: the two strings are equal once
/// ASCII capital letters are made small.
#[verifier::external_body]
fn eq_ignore_ascii_case(a: &str, b: &str) -> (r: bool)
    ensures
        r == (ascii_lowered(a@) == ascii_lowered(b@)),
{
    a.eq_ignore_ascii_case(b)
}

/// The token of an `authorization` value of the form `Bearer <token>`, the
/// scheme in any ASCII case; `None` for another scheme or an empty token.
pub fn extract_bearer_token(value: &str) -> (r: Option<&str>)
    ensures
        match r {
            Some(token) => bearer_token(value@) == Some(token@),
            None => bearer_token(value@) is None,
        },
{
    let trimmed = trim_white_space(value);
    let (scheme, token) = match split_once_char(trimmed, ' ') {
        Some(parts) => parts,
        None => {
            proof {
                let t = trimmed@;
                if exists|head: Seq<char>, tail: Seq<char>| splits_at_first(t, ' ', head, tail) {
                    let (head, tail) = choose|head: Seq<char>, tail: Seq<char>|
                        splits_at_first(t, ' ', head, tail);
                    assert(t[head.len() as int] == ' ');
                }
            }
            return None;
        },
    };
    proof {
        let t = trimmed@;
        let (head, tail) = choose|head: Seq<char>, tail: Seq<char>|
            splits_at_first(t, ' ', head, tail);
        lemma_split_at_first_unique(t, ' ', head, tail, scheme@, token@);
        reveal_strlit("bearer");
    }
    if eq_ignore_ascii_case(scheme, "bearer") {
        let token = trim_white_space(token);
        if token.is_empty() {
            None
        } else {
            Some(token)
        }
    } else {
        None
    }
}

/// Relies on `str::to_ascii_lowercase`: a copy in which ASCII capital letters
/// are made small and every other character is kept.
#[verifier::external_body]
fn to_ascii_lowercase(s: &str) -> (r: String)
    ensures
        codes(r@) == ascii_lowered(s@),
{
    s.to_ascii_lowercase()
}

/// The character codes of `s`.
pub open spec fn codes(s: Seq<char>) -> Seq<u32> {
    s.map_values(|c: char| c as u32)
}

/// The key under which the bearer token travels.
pub open spec fn authorization_key() -> Seq<u32> {
    codes("authorization"@)
}

/// Why a set of headers was refused.
#[derive(Debug)]
pub enum MetadataError {
    /// A key that is empty once trimmed.
    EmptyKey,
    /// A key, trimmed and in ASCII lower case, seen twice; or a second
    /// `authorization` header after a bearer token.
    DuplicateKey(String),
    /// A header, by its key, whose value is empty once trimmed.
    EmptyValue(String),
}

/// `MetadataError` with keys by their character codes.
pub enum MetadataFault {
    EmptyKey,
    DuplicateKey(Seq<u32>),
    EmptyValue(Seq<u32>),
}

impl MetadataError {
    /// The fault that this error stands for.
    pub open spec fn fault(&self) -> MetadataFault {
        match self {
            MetadataError::EmptyKey => MetadataFault::EmptyKey,
            MetadataError::DuplicateKey(key) => MetadataFault::DuplicateKey(codes(key@)),
            MetadataError::EmptyValue(key) => MetadataFault::EmptyValue(codes(key@)),
        }
    }

    /// The text that describes the error.
    pub fn message(&self) -> (r: String)
        ensures
            r@ == match self {
                MetadataError::EmptyKey => "header keys must be non-empty"@,
                MetadataError::DuplicateKey(key) => "duplicate header key '"@ + key@ + "'"@,
                MetadataError::EmptyValue(key) => "header '"@ + key@ + "' must have a non-empty value"@,
            },
    {
        match self {
            MetadataError::EmptyKey => String::from_str("header keys must be non-empty"),
            MetadataError::DuplicateKey(key) => String::from_str("duplicate header key '").concat(
                key.as_str(),
            ).concat("'"),
            MetadataError::EmptyValue(key) => String::from_str("header '").concat(
                key.as_str(),
            ).concat("' must have a non-empty value"),
        }
    }
}

/// Headers as normalised so far: keys by their character codes, values by
/// their text, and the bearer token if one was found.
pub struct HeadersModel {
    pub headers: Seq<(Seq<u32>, Seq<char>)>,
    pub bearer: Option<Seq<char>>,
}

/// Some header of `headers` has the key `key`.
pub open spec fn has_key(headers: Seq<(Seq<u32>, Seq<char>)>, key: Seq<u32>) -> bool {
    exists|j: int| 0 <= j < headers.len() && (#[trigger] headers[j]).0 == key
}

/// One raw header taken into `acc`. The key is trimmed and must not be empty;
/// in ASCII lower case it must not be there yet, nor be `authorization` once
/// a bearer token was found. The trimmed value must not be empty. An
/// `authorization` value that carries a bearer token gives the token;
/// any other header is kept, trimmed, after those before it.
pub open spec fn header_step(
    acc: Result<HeadersModel, MetadataFault>,
    raw: (Seq<char>, Seq<char>),
) -> Result<HeadersModel, MetadataFault> {
    match acc {
        Err(fault) => Err(fault),
        Ok(m) => {
            let key = trim(raw.0);
            let lower = ascii_lowered(key);
            let value = trim(raw.1);
            let is_authorization = lower == authorization_key();
            if key.len() == 0 {
                Err(MetadataFault::EmptyKey)
            } else if has_key(m.headers, lower) || (is_authorization && m.bearer is Some) {
                Err(MetadataFault::DuplicateKey(lower))
            } else if value.len() == 0 {
                Err(MetadataFault::EmptyValue(lower))
            } else if is_authorization && bearer_token(value) is Some {
                Ok(HeadersModel { headers: m.headers, bearer: bearer_token(value) })
            } else {
                Ok(HeadersModel { headers: m.headers.push((lower, value)), bearer: m.bearer })
            }
        },
    }
}

/// The first `n` raw headers normalised in order, starting from none.
pub open spec fn normalized_prefix(raw: Seq<(Seq<char>, Seq<char>)>, n: nat) -> Result<
    HeadersModel,
    MetadataFault,
>
    decreases n,
{
    if n == 0 || n > raw.len() {
        Ok(HeadersModel { headers: Seq::empty(), bearer: None })
    } else {
        header_step(normalized_prefix(raw, (n - 1) as nat), raw[n - 1])
    }
}

/// All raw headers normalised in order.
pub open spec fn normalized_headers(raw: Seq<(Seq<char>, Seq<char>)>) -> Result<
    HeadersModel,
    MetadataFault,
> {
    normalized_prefix(raw, raw.len())
}

/// Once a header is refused, the whole set is refused for that reason.
proof fn lemma_fault_persists(raw: Seq<(Seq<char>, Seq<char>)>, i: nat, n: nat)
    requires
        i <= n <= raw.len(),
        normalized_prefix(raw, i) is Err,
    ensures
        normalized_prefix(raw, n) == normalized_prefix(raw, i),
    decreases n - i,
{
    if n > i {
        lemma_fault_persists(raw, i, (n - 1) as nat);
    }
}

/// Pairs of strings by their text.
pub open spec fn raw_model(raw: Seq<(String, String)>) -> Seq<(Seq<char>, Seq<char>)> {
    raw.map_values(|p: (String, String)| (p.0@, p.1@))
}

/// Normalised headers by key codes and value text.
pub open spec fn headers_model(headers: Seq<(String, String)>) -> Seq<(Seq<u32>, Seq<char>)> {
    headers.map_values(|p: (String, String)| (codes(p.0@), p.1@))
}

/// Equal character codes mean equal text.
proof fn lemma_codes_injective(a: Seq<char>, b: Seq<char>)
    requires
        codes(a) == codes(b),
    ensures
        a == b,
{
    assert(a.len() == codes(a).len());
    assert(b.len() == codes(b).len());
    assert forall|i: int| 0 <= i < a.len() implies a[i] == b[i] by {
        assert(codes(a)[i] == a[i] as u32);
        assert(codes(b)[i] == b[i] as u32);
        char_u32_cast(a[i], a[i] as u32);
        char_u32_cast(b[i], b[i] as u32);
    }
    assert(a =~= b);
}

/// Whether `headers` holds a key equal to `key`.
fn contains_key(headers: &Vec<(String, String)>, key: &String) -> (r: bool)
    ensures
        r == has_key(headers_model(headers@), codes(key@)),
{
    let ghost model = headers_model(headers@);
    let mut i: usize = 0;
    while i < headers.len()
        invariant
            i <= headers@.len(),
            model == headers_model(headers@),
            forall|j: int| 0 <= j < i ==> (#[trigger] model[j]).0 != codes(key@),
        decreases headers@.len() - i,
    {
        if headers[i].0 == *key {
            assert(model[i as int].0 == codes(key@));
            return true;
        }
        proof {
            if model[i as int].0 == codes(key@) {
                lemma_codes_injective(headers@[i as int].0@, key@);
            }
        }
        i = i + 1;
    }
    false
}

/// Normalises the headers to be sent with every request, in the order given.
///
/// Keys are trimmed and put in ASCII lower case, values trimmed. An
/// `authorization` header that carries a bearer token is taken out and its
/// token returned beside the headers. The first header that breaks a rule
/// decides the error: an empty key, a key seen before (or a second bearer
/// token), or an empty value.
pub fn normalize_metadata_headers(raw_headers: Vec<(String, String)>) -> (r: Result<
    (Vec<(String, String)>, Option<String>),
    MetadataError,
>)
    ensures
        match r {
            Ok((headers, bearer)) => normalized_headers(raw_model(raw_headers@)) == Ok::<
                HeadersModel,
                MetadataFault,
            >(
                HeadersModel {
                    headers: headers_model(headers@),
                    bearer: match bearer {
                        Some(token) => Some(token@),
                        None => None,
                    },
                },
            ),
            Err(e) => normalized_headers(raw_model(raw_headers@)) == Err::<
                HeadersModel,
                MetadataFault,
            >(e.fault()),
        },
{
    let ghost raw = raw_model(raw_headers@);
    let mut normalized: Vec<(String, String)> = Vec::new();
    let mut bearer: Option<String> = None;
    let authorization = String::from_str("authorization");
    proof {
        reveal_strlit("authorization");
    }
    let mut i: usize = 0;
    assert(headers_model(normalized@) =~= Seq::empty());
    while i < raw_headers.len()
        invariant
            i <= raw_headers@.len(),
            raw == raw_model(raw_headers@),
            authorization@ == "authorization"@,
            normalized_prefix(raw, i as nat) == Ok::<HeadersModel, MetadataFault>(
                HeadersModel {
                    headers: headers_model(normalized@),
                    bearer: match bearer {
                        Some(token) => Some(token@),
                        None => None,
                    },
                },
            ),
        decreases raw_headers@.len() - i,
    {
        let ghost before = headers_model(normalized@);
        assert(raw[i as int] == (raw_headers@[i as int].0@, raw_headers@[i as int].1@));
        let key = trim_white_space(raw_headers[i].0.as_str());
        if key.is_empty() {
            proof {
                lemma_fault_persists(raw, (i + 1) as nat, raw.len());
            }
            return Err(MetadataError::EmptyKey);
        }
        let lower_key = to_ascii_lowercase(key);
        let is_authorization = lower_key == authorization;
        proof {
            if is_authorization {
                assert(codes(lower_key@) == authorization_key());
            } else if codes(lower_key@) == authorization_key() {
                lemma_codes_injective(lower_key@, "authorization"@);
            }
        }
        if contains_key(&normalized, &lower_key) || (is_authorization && bearer.is_some()) {
            proof {
                lemma_fault_persists(raw, (i + 1) as nat, raw.len());
            }
            return Err(MetadataError::DuplicateKey(lower_key));
        }
        let value = trim_white_space(raw_headers[i].1.as_str());
        if value.is_empty() {
            proof {
                lemma_fault_persists(raw, (i + 1) as nat, raw.len());
            }
            return Err(MetadataError::EmptyValue(lower_key));
        }
        if is_authorization {
            if let Some(token) = extract_bearer_token(value) {
                bearer = Some(token.to_owned());
                i = i + 1;
                continue;
            }
        }
        normalized.push((lower_key, value.to_owned()));
        proof {
            assert(headers_model(normalized@) =~= before.push(
                (codes(lower_key@), value@),
            ));
        }
        i = i + 1;
    }
    Ok((normalized, bearer))
}

} // verus!
