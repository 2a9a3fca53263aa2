//! Node endpoints: `[http[s]://]host:port`.
use vstd::prelude::*;
use vstd::string::*;

use crate::status::{plain, Code, Status, StatusView};
use crate::text::{after_prefix, char_is_whitespace, chars_of, is_whitespace, without_prefix};

verus! {

/// The value of a decimal digit.
pub open spec fn digit_value(c: char) -> Option<nat> {
    if '0' <= c <= '9' {
        Some((c as u32 - '0' as u32) as nat)
    } else {
        None
    }
}

/// The number that digits write, or `None` where some character is no digit.
pub open spec fn number(s: Seq<char>) -> Option<nat>
    decreases s.len(),
{
    if s.len() == 0 {
        Some(0)
    } else {
        match (number(s.drop_last()), digit_value(s.last())) {
            (Some(n), Some(d)) => Some(10 * n + d),
            _ => None,
        }
    }
}

/// Whether a text reads as a port: digits, after a plus sign perhaps, of a number up to 65535.
pub open spec fn is_port(s: Seq<char>) -> bool {
    let digits = if s.len() > 0 && s[0] == '+' {
        s.drop_first()
    } else {
        s
    };
    digits.len() > 0 && number(digits) is Some && number(digits)->0 <= 65535
}

/// What follows the scheme of an endpoint.
pub open spec fn after_scheme(s: Seq<char>) -> Seq<char> {
    match after_prefix(s, "http://"@) {
        Some(rest) => rest,
        None => match after_prefix(s, "https://"@) {
            Some(rest) => rest,
            None => s,
        },
    }
}

/// Whether the last occurrence of `c` in `s` is at `i`.
pub open spec fn last_at(s: Seq<char>, c: char, i: int) -> bool {
    0 <= i < s.len() && s[i] == c && forall|k: int| i < k < s.len() ==> s[k] != c
}

/// What is wrong with an endpoint that is not empty, or `None` where nothing is.
pub open spec fn endpoint_fault(s: Seq<char>) -> Option<Seq<char>> {
    let rest = after_scheme(s);
    if exists|i: int| 0 <= i < s.len() && is_whitespace(#[trigger] s[i]) {
        Some("contains whitespace"@)
    } else if rest.contains('/') {
        Some("unsupported scheme or path"@)
    } else if !rest.contains(':') {
        Some("missing `:port`"@)
    } else {
        let at = choose|i: int| last_at(rest, ':', i);
        if at == 0 {
            Some("empty host"@)
        } else if !is_port(rest.subrange(at + 1, rest.len() as int)) {
            Some("port is not a number in 0-65535"@)
        } else {
            None
        }
    }
}

/// The refusal of an endpoint.
pub open spec fn bad_endpoint(endpoint: Seq<char>, why: Seq<char>) -> Seq<char> {
    "invalid endpoint `"@ + endpoint + "`: "@ + why + " (expected [http[s]://]host:port)"@
}

/// The refusal of an endpoint that is empty or malformed.
pub open spec fn endpoint_refusal(endpoint: Seq<char>) -> Option<StatusView> {
    if endpoint.len() == 0 {
        Some(plain(Code::InvalidArgument, "endpoint is required"@))
    } else {
        match endpoint_fault(endpoint) {
            Some(why) => Some(plain(Code::InvalidArgument, bad_endpoint(endpoint, why))),
            None => None,
        }
    }
}

fn bad(endpoint: &str, why: &'static str) -> (s: Status)
    ensures
        s@ == plain(Code::InvalidArgument, bad_endpoint(endpoint@, why@)),
{
    let mut m = "invalid endpoint `".to_owned();
    m.append(endpoint);
    m.append("`: ");
    m.append(why);
    m.append(" (expected [http[s]://]host:port)");
    Status::new(Code::InvalidArgument, m)
}

proof fn lemma_not_a_number(s: Seq<char>, n: int)
    requires
        0 <= n <= s.len(),
        number(s.take(n)) is None || number(s.take(n))->0 > 65535,
    ensures
        number(s) is None || number(s)->0 > 65535,
    decreases s.len(),
{
    if n == s.len() {
        assert(s.take(n) =~= s);
    } else {
        assert(s.drop_last().take(n) =~= s.take(n));
        lemma_not_a_number(s.drop_last(), n);
    }
}

fn reads_as_port(cs: &Vec<char>, from: usize) -> (b: bool)
    requires
        from <= cs@.len(),
    ensures
        b == is_port(cs@.subrange(from as int, cs@.len() as int)),
{
    let ghost text = cs@.subrange(from as int, cs@.len() as int);
    let start: usize = if from < cs.len() && cs[from] == '+' {
        from + 1
    } else {
        from
    };
    let ghost digits = cs@.subrange(start as int, cs@.len() as int);
    proof {
        if start > from {
            assert(text.drop_first() =~= digits);
        }
    }
    if start == cs.len() {
        return false;
    }
    let mut n: u32 = 0;
    let mut i: usize = start;
    assert(digits.take(0) =~= Seq::empty());
    while i < cs.len()
        invariant
            from <= start <= i <= cs@.len(),
            digits == cs@.subrange(start as int, cs@.len() as int),
            number(digits.take(i - start)) == Some(n as nat),
            n <= 65535,
            digits.len() > 0,
            text == cs@.subrange(from as int, cs@.len() as int),
            digits == if text.len() > 0 && text[0] == '+' {
                text.drop_first()
            } else {
                text
            },
        decreases cs@.len() - i,
    {
        let c = cs[i];
        assert(digits.take(i - start + 1).drop_last() =~= digits.take(i - start));
        assert(digits.take(i - start + 1).last() == c);
        if !('0' <= c && c <= '9') {
            proof {
                lemma_not_a_number(digits, i - start + 1);
            }
            return false;
        }
        let d: u32 = c as u32 - '0' as u32;
        n = 10 * n + d;
        if n > 65535 {
            proof {
                lemma_not_a_number(digits, i - start + 1);
            }
            return false;
        }
        i = i + 1;
    }
    assert(digits.take(i - start) =~= digits);
    true
}

/// Checks an endpoint that a node reports: the pool and the shard map are keyed by it and the
/// gateway dials it, so a malformed one is refused.
pub fn validate_endpoint(endpoint: &str) -> (r: Result<(), Status>)
    ensures
        match endpoint_refusal(endpoint@) {
            Some(s) => r matches Err(e) && e@ == s,
            None => r is Ok,
        },
{
    if endpoint.is_empty() {
        return Err(Status::fixed(Code::InvalidArgument, "endpoint is required"));
    }
    let all = chars_of(endpoint);
    let mut i: usize = 0;
    while i < all.len()
        invariant
            all@ == endpoint@,
            endpoint@.len() > 0,
            i <= all@.len(),
            forall|k: int| 0 <= k < i ==> !is_whitespace(#[trigger] all@[k]),
        decreases all@.len() - i,
    {
        if char_is_whitespace(all[i]) {
            return Err(bad(endpoint, "contains whitespace"));
        }
        i = i + 1;
    }
    let rest = match without_prefix(endpoint, "http://") {
        Some(rest) => rest,
        None => match without_prefix(endpoint, "https://") {
            Some(rest) => rest,
            None => endpoint,
        },
    };
    let cs = chars_of(rest);
    let mut colon: Option<usize> = None;
    let mut k: usize = 0;
    while k < cs.len()
        invariant
            all@ == endpoint@,
            endpoint@.len() > 0,
            forall|l: int| 0 <= l < all@.len() ==> !is_whitespace(#[trigger] all@[l]),
            cs@ == rest@,
            rest@ == after_scheme(endpoint@),
            k <= cs@.len(),
            forall|l: int| 0 <= l < k ==> cs@[l] != '/',
            match colon {
                Some(at) => at < k && cs@[at as int] == ':' && forall|l: int|
                    at < l < k ==> cs@[l] != ':',
                None => forall|l: int| 0 <= l < k ==> cs@[l] != ':',
            },
        decreases cs@.len() - k,
    {
        if cs[k] == '/' {
            assert(rest@.contains('/'));
            return Err(bad(endpoint, "unsupported scheme or path"));
        }
        if cs[k] == ':' {
            colon = Some(k);
        }
        k = k + 1;
    }
    assert(!rest@.contains('/'));
    let at = match colon {
        Some(at) => at,
        None => {
            assert(!rest@.contains(':'));
            return Err(bad(endpoint, "missing `:port`"));
        },
    };
    proof {
        assert(rest@[at as int] == ':');
        assert(rest@.contains(':'));
        assert(last_at(rest@, ':', at as int));
        let chosen = choose|i: int| last_at(rest@, ':', i);
        assert(last_at(rest@, ':', chosen));
        assert(chosen == at);
    }
    if at == 0 {
        return Err(bad(endpoint, "empty host"));
    }
    if !reads_as_port(&cs, at + 1) {
        return Err(bad(endpoint, "port is not a number in 0-65535"));
    }
    Ok(())
}

} // verus!
