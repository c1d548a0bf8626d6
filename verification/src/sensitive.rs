//! Sensitive header detection for metadata extraction and request tracing.

use crate::text::{
    ascii_case_eq, ascii_lower, ascii_lowercase, eq_ignore_ascii_case, is_unicode_whitespace, lemma_cut_prefix_matches, lemma_no_cut_no_match,
    trim_start, trim_start_chars,
};
use vstd::prelude::*;
use vstd::string::*;
use vstd::utf8::*;

verus! {

/// Standard redaction placeholder for sensitive values.
pub const REDACTED_PLACEHOLDER: &'static str = "<redacted>";

/// A value that starts with this text, ignoring ASCII case, carries a bearer
/// token.
const BEARER_PREFIX: &'static str = "bearer ";

/// How many header names are on the denylist.
const SENSITIVE_HEADER_COUNT: usize = 8;

/// Header names that carry credentials and must never be captured unredacted.
pub open spec fn sensitive_header_names() -> Seq<Seq<char>> {
    seq![
        "authorization"@,
        "proxy-authorization"@,
        "cookie"@,
        "set-cookie"@,
        "x-api-key"@,
        "api-key"@,
        "x-auth-token"@,
        "x-access-token"@,
    ]
}

/// `key` is one of the denylisted header names, ignoring ASCII case.
pub open spec fn is_denylisted_name(key: Seq<char>) -> bool {
    exists|i: int|
        0 <= i < sensitive_header_names().len() && ascii_case_eq(
            key,
            #[trigger] sensitive_header_names()[i],
        )
}

/// The characters of the bearer-token prefix.
pub open spec fn bearer_prefix() -> Seq<char> {
    "bearer "@
}

/// `value` begins with `"bearer "`, ignoring ASCII case.
pub open spec fn has_bearer_prefix(value: Seq<char>) -> bool {
    &&& value.len() >= bearer_prefix().len()
    &&& ascii_case_eq(value.take(bearer_prefix().len() as int), bearer_prefix())
}

/// A header is sensitive when its name is denylisted, or when its value,
/// after leading whitespace, carries a bearer token.
pub open spec fn header_is_sensitive(key: Seq<char>, value: Seq<char>) -> bool {
    is_denylisted_name(key) || has_bearer_prefix(trim_start_chars(value))
}

/// The `i`-th denylisted header name.
fn sensitive_header_name(i: usize) -> (name: &'static str)
    requires
        i < SENSITIVE_HEADER_COUNT,
    ensures
        name@ == sensitive_header_names()[i as int],
{
    match i {
        0 => "authorization",
        1 => "proxy-authorization",
        2 => "cookie",
        3 => "set-cookie",
        4 => "x-api-key",
        5 => "api-key",
        6 => "x-auth-token",
        _ => "x-access-token",
    }
}

/// Returns `true` if the header name or value indicates a credential.
///
/// This check is non-overridable: even if a header name is explicitly allowlisted,
/// it will be redacted if it matches the denylist or carries a bearer token.
pub fn is_sensitive_header(raw_key: &str, raw_value: &str) -> (sensitive: bool)
    ensures
        sensitive == header_is_sensitive(raw_key@, raw_value@),
{
    let value: &str = trim_start(raw_value);

    // Check if the header name is in the denylist
    let mut i: usize = 0;
    while i < SENSITIVE_HEADER_COUNT
        invariant
            i <= SENSITIVE_HEADER_COUNT,
            forall|j: int| 0 <= j < i ==> !ascii_case_eq(raw_key@, #[trigger] sensitive_header_names()[j]),
        decreases SENSITIVE_HEADER_COUNT - i,
    {
        if eq_ignore_ascii_case(raw_key, sensitive_header_name(i)) {
            return true;
        }
        i += 1;
    }

    // Check if the value contains a bearer token: the first `BEARER_PREFIX.len()`
    // bytes of the value, when they end on a character boundary.
    proof {
        reveal_strlit("bearer ");
        is_ascii_chars_encode_utf8(BEARER_PREFIX@);
    }
    let prefix_len: usize = BEARER_PREFIX.len();
    if value.is_char_boundary(prefix_len) {
        let (prefix, _rest) = value.split_at(prefix_len);
        proof {
            lemma_cut_prefix_matches(value@, prefix@, bearer_prefix());
        }
        eq_ignore_ascii_case(prefix, BEARER_PREFIX)
    } else {
        proof {
            lemma_no_cut_no_match(value@, bearer_prefix());
        }
        false
    }
}

/// A denylisted header name is sensitive whatever its value: the denylist
/// cannot be overridden by the value.
pub proof fn lemma_denylisted_name_is_sensitive(key: Seq<char>, value: Seq<char>)
    requires
        is_denylisted_name(key),
    ensures
        header_is_sensitive(key, value),
{
}

/// A value carrying a bearer token, possibly after leading whitespace, is
/// sensitive under any header name.
pub proof fn lemma_bearer_value_is_sensitive(key: Seq<char>, value: Seq<char>)
    requires
        has_bearer_prefix(trim_start_chars(value)),
    ensures
        header_is_sensitive(key, value),
{
}

/// Header names are compared without regard to ASCII case.
pub proof fn lemma_name_case_is_ignored(key1: Seq<char>, key2: Seq<char>, value: Seq<char>)
    requires
        ascii_case_eq(key1, key2),
    ensures
        header_is_sensitive(key1, value) == header_is_sensitive(key2, value),
{
    if is_denylisted_name(key1) {
        let i = choose|i: int|
            0 <= i < sensitive_header_names().len() && ascii_case_eq(
                key1,
                #[trigger] sensitive_header_names()[i],
            );
        assert(ascii_case_eq(key2, sensitive_header_names()[i]));
    }
    if is_denylisted_name(key2) {
        let i = choose|i: int|
            0 <= i < sensitive_header_names().len() && ascii_case_eq(
                key2,
                #[trigger] sensitive_header_names()[i],
            );
        assert(ascii_case_eq(key1, sensitive_header_names()[i]));
    }
}

/// Two characters equal up to ASCII case are both whitespace or both not.
proof fn lemma_whitespace_ignores_case(c: char, d: char)
    requires
        ascii_lower(c) == ascii_lower(d),
    ensures
        is_unicode_whitespace(c) == is_unicode_whitespace(d),
{
}

/// Trimming commutes with equality up to ASCII case.
proof fn lemma_trim_keeps_case_eq(v1: Seq<char>, v2: Seq<char>)
    requires
        ascii_case_eq(v1, v2),
    ensures
        ascii_case_eq(trim_start_chars(v1), trim_start_chars(v2)),
    decreases v1.len(),
{
    assert(ascii_lowercase(v1).len() == v1.len());
    assert(ascii_lowercase(v2).len() == v2.len());
    if v1.len() > 0 {
        assert(ascii_lowercase(v1)[0] == ascii_lower(v1[0]));
        assert(ascii_lowercase(v2)[0] == ascii_lower(v2[0]));
        lemma_whitespace_ignores_case(v1[0], v2[0]);
        if is_unicode_whitespace(v1[0]) {
            assert(ascii_lowercase(v1.drop_first()) =~= ascii_lowercase(v1).drop_first());
            assert(ascii_lowercase(v2.drop_first()) =~= ascii_lowercase(v2).drop_first());
            lemma_trim_keeps_case_eq(v1.drop_first(), v2.drop_first());
        }
    }
}

/// Header values are inspected without regard to ASCII case: `Bearer`,
/// `bearer` and `BEARER` are the same token marker.
pub proof fn lemma_value_case_is_ignored(key: Seq<char>, value1: Seq<char>, value2: Seq<char>)
    requires
        ascii_case_eq(value1, value2),
    ensures
        header_is_sensitive(key, value1) == header_is_sensitive(key, value2),
{
    lemma_trim_keeps_case_eq(value1, value2);
    let t1 = trim_start_chars(value1);
    let t2 = trim_start_chars(value2);
    assert(ascii_lowercase(t1).len() == t1.len());
    assert(ascii_lowercase(t2).len() == t2.len());
    let n = bearer_prefix().len() as int;
    if t1.len() >= n {
        assert(ascii_lowercase(t1.take(n)) =~= ascii_lowercase(t1).take(n));
        assert(ascii_lowercase(t2.take(n)) =~= ascii_lowercase(t2).take(n));
    }
}

/// Whitespace put before a value changes nothing: a bearer token is found
/// behind any amount of leading whitespace.
pub proof fn lemma_leading_whitespace_is_ignored(
    key: Seq<char>,
    whitespace: Seq<char>,
    value: Seq<char>,
)
    requires
        forall|i: int| 0 <= i < whitespace.len() ==> is_unicode_whitespace(#[trigger] whitespace[i]),
    ensures
        header_is_sensitive(key, whitespace + value) == header_is_sensitive(key, value),
    decreases whitespace.len(),
{
    if whitespace.len() > 0 {
        assert((whitespace + value)[0] == whitespace[0]);
        assert((whitespace + value).drop_first() =~= whitespace.drop_first() + value);
        lemma_leading_whitespace_is_ignored(key, whitespace.drop_first(), value);
    } else {
        assert(whitespace + value =~= value);
    }
}

} // verus!
