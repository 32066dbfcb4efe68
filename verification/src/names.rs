//! Normalized names of packages, extras and dependency groups.

use crate::text::{is_alnum, lower};
use std::str::FromStr;
use vstd::prelude::*;

verus! {

/// The characters that separate the words of a name.
pub open spec fn is_separator(c: char) -> bool {
    c == '-' || c == '_' || c == '.'
}

/// A name is made of letters, digits and separators, and starts and ends
/// with a letter or digit.
pub open spec fn is_name(s: Seq<char>) -> bool {
    &&& s.len() > 0
    &&& is_alnum(s[0])
    &&& is_alnum(s.last())
    &&& forall|i: int| 0 <= i < s.len() ==> is_alnum(#[trigger] s[i]) || is_separator(s[i])
}

/// `s` with capitals made small and each run of separators replaced by one
/// hyphen.
pub open spec fn normalized(s: Seq<char>) -> Seq<char>
    decreases s.len(),
{
    if s.len() == 0 {
        Seq::empty()
    } else if !is_separator(s.last()) {
        normalized(s.drop_last()).push(lower(s.last()))
    } else if s.len() > 1 && is_separator(s[s.len() - 2]) {
        normalized(s.drop_last())
    } else {
        normalized(s.drop_last()).push('-')
    }
}

/// Why a text is no name.
pub open spec fn invalid_name_message(s: Seq<char>) -> Seq<char> {
    "Not a valid package or extra name: \""@ + s
        + "\". Names must start and end with a letter or digit and may only contain -, _, ., and alphanumeric characters."@
}

/// The normalized form of a name, or why the text is no name.
pub open spec fn name_outcome(s: Seq<char>) -> Result<Seq<char>, Seq<char>> {
    if is_name(s) {
        Ok(normalized(s))
    } else {
        Err(invalid_name_message(s))
    }
}

/// `uv_normalize::PackageName::from_str`: accepts the texts that are names,
/// gives them back normalized, and otherwise an error that quotes the text.
#[verifier::external_body]
pub(crate) fn package_name(text: &str) -> (r: Result<String, String>)
    ensures
        match r {
            Ok(name) => name_outcome(text@) == Ok::<Seq<char>, Seq<char>>(name@),
            Err(message) => name_outcome(text@) == Err::<Seq<char>, Seq<char>>(message@),
        },
{
    uv_normalize::PackageName::from_str(text).map(|n| n.to_string()).map_err(|e| e.to_string())
}

/// `uv_normalize::ExtraName::from_str`: accepts the texts that are names,
/// gives them back normalized, and otherwise an error that quotes the text.
#[verifier::external_body]
pub(crate) fn extra_name(text: &str) -> (r: Result<String, String>)
    ensures
        match r {
            Ok(name) => name_outcome(text@) == Ok::<Seq<char>, Seq<char>>(name@),
            Err(message) => name_outcome(text@) == Err::<Seq<char>, Seq<char>>(message@),
        },
{
    uv_normalize::ExtraName::from_str(text).map(|n| n.to_string()).map_err(|e| e.to_string())
}

/// `uv_normalize::GroupName::from_str`: accepts the texts that are names,
/// gives them back normalized, and otherwise an error that quotes the text.
#[verifier::external_body]
pub(crate) fn group_name(text: &str) -> (r: Result<String, String>)
    ensures
        match r {
            Ok(name) => name_outcome(text@) == Ok::<Seq<char>, Seq<char>>(name@),
            Err(message) => name_outcome(text@) == Err::<Seq<char>, Seq<char>>(message@),
        },
{
    uv_normalize::GroupName::from_str(text).map(|n| n.to_string()).map_err(|e| e.to_string())
}

/// The characters of a normalized name.
pub open spec fn is_plain(c: char) -> bool {
    'a' <= c <= 'z' || '0' <= c <= '9' || c == '-'
}

proof fn lower_is_plain(c: char)
    requires
        is_alnum(c),
    ensures
        is_plain(lower(c)),
        is_alnum(lower(c)),
        !is_separator(lower(c)),
        lower(lower(c)) == lower(c),
{
}

/// What the front part of a name gives once normalized: small letters,
/// digits and single hyphens, starting with no hyphen, and ending with one
/// exactly where the part ends with a separator.
proof fn normalized_front(s: Seq<char>)
    requires
        s.len() > 0,
        is_alnum(s[0]),
        forall|i: int| 0 <= i < s.len() ==> is_alnum(#[trigger] s[i]) || is_separator(s[i]),
    ensures
        ({
            let n = normalized(s);
            &&& n.len() > 0
            &&& is_alnum(n[0])
            &&& forall|i: int| 0 <= i < n.len() ==> is_plain(#[trigger] n[i])
            &&& forall|i: int| 0 < i < n.len() ==> !(#[trigger] n[i] == '-' && n[i - 1] == '-')
            &&& n.last() == '-' <==> is_separator(s.last())
        }),
    decreases s.len(),
{
    let n = normalized(s);
    let front = s.drop_last();
    if s.len() == 1 {
        lower_is_plain(s[0]);
        assert(normalized(front) =~= Seq::empty());
        assert(n =~= seq![lower(s[0])]);
    } else {
        assert forall|i: int| 0 <= i < front.len() implies is_alnum(#[trigger] front[i])
            || is_separator(front[i]) by {
            assert(front[i] == s[i]);
        }
        normalized_front(front);
        let before = normalized(front);
        assert(front.last() == s[s.len() - 2]);
        if !is_separator(s.last()) {
            assert(is_alnum(s[s.len() - 1]));
            lower_is_plain(s.last());
            assert forall|i: int| 0 < i < n.len() implies !(#[trigger] n[i] == '-' && n[i - 1]
                == '-') by {
                if i < before.len() {
                    assert(n[i] == before[i]);
                }
            }
        } else if is_separator(s[s.len() - 2]) {
        } else {
            assert forall|i: int| 0 < i < n.len() implies !(#[trigger] n[i] == '-' && n[i - 1]
                == '-') by {
                if i < before.len() {
                    assert(n[i] == before[i]);
                }
            }
        }
    }
}

/// A normalized name is a name.
pub proof fn normalized_is_name(s: Seq<char>)
    requires
        is_name(s),
    ensures
        is_name(normalized(s)),
{
    normalized_front(s);
    let n = normalized(s);
    assert(is_plain(n[n.len() - 1]));
    assert forall|i: int| 0 <= i < n.len() implies is_alnum(#[trigger] n[i]) || is_separator(
        n[i],
    ) by {
        assert(is_plain(n[i]));
    }
}

proof fn normalized_fixes(n: Seq<char>)
    requires
        forall|i: int| 0 <= i < n.len() ==> is_plain(#[trigger] n[i]),
        forall|i: int| 0 < i < n.len() ==> !(#[trigger] n[i] == '-' && n[i - 1] == '-'),
    ensures
        normalized(n) == n,
    decreases n.len(),
{
    if n.len() > 0 {
        let front = n.drop_last();
        assert forall|i: int| 0 <= i < front.len() implies is_plain(#[trigger] front[i]) by {
            assert(front[i] == n[i]);
        }
        assert forall|i: int| 0 < i < front.len() implies !(#[trigger] front[i] == '-' && front[i
            - 1] == '-') by {
            assert(front[i] == n[i]);
        }
        normalized_fixes(front);
        assert(is_plain(n[n.len() - 1]));
        assert(n =~= front.push(n.last()));
        if n.last() == '-' && n.len() > 1 {
            assert(n[n.len() - 1] == '-');
            assert(is_plain(n[n.len() - 2]));
        }
    } else {
        assert(normalized(n) =~= n);
    }
}

/// Normalizing a name twice is normalizing it once.
pub proof fn normalizing_is_idempotent(s: Seq<char>)
    requires
        is_name(s),
    ensures
        normalized(normalized(s)) == normalized(s),
{
    normalized_front(s);
    normalized_fixes(normalized(s));
}

} // verus!
