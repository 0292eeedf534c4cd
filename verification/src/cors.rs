//! The cross-origin policy: an origin is accepted when its scheme is
//! http or https and its host is localhost, a loopback address, or one
//! of the private ranges 172.x and 192.168.x; every other origin is
//! rejected.
use vstd::prelude::*;

use crate::json::{matches_at, matches_at_x};

verus! {

/// The first index at or after `i` holding `:`, or the length of `s`.
pub open spec fn colon_end(s: Seq<char>, i: int) -> int
    decreases s.len() - i,
    when 0 <= i <= s.len()
{
    if i < s.len() && s[i] != ':' {
        colon_end(s, i + 1)
    } else {
        i
    }
}

proof fn lemma_colon_end_bounds(s: Seq<char>, i: int)
    requires
        0 <= i <= s.len(),
    ensures
        i <= colon_end(s, i) <= s.len(),
    decreases s.len() - i,
{
    if i < s.len() && s[i] != ':' {
        lemma_colon_end_bounds(s, i + 1);
    }
}

/// The host of an origin whose scheme ends at `k`: the characters up to
/// the port separator, or to the end.
pub open spec fn host_part(o: Seq<char>, k: int) -> Seq<char> {
    o.subrange(k, colon_end(o, k))
}

/// An accepted host: localhost, loopback, or a private range.
pub open spec fn allowed_host(h: Seq<char>) -> bool {
    ||| h == "localhost"@
    ||| matches_at(h, 0, "127."@)
    ||| matches_at(h, 0, "172."@)
    ||| matches_at(h, 0, "192.168."@)
}

/// An accepted origin: http or https, and an accepted host.
pub open spec fn origin_allowed_spec(o: Seq<char>) -> bool {
    ||| matches_at(o, 0, "http://"@) && allowed_host(host_part(o, 7))
    ||| matches_at(o, 0, "https://"@) && allowed_host(host_part(o, 8))
}

/// The host characters from `k` to the port separator or the end.
fn host_chars(cs: &Vec<char>, k: usize) -> (r: Vec<char>)
    requires
        k <= cs@.len(),
    ensures
        r@ == host_part(cs@, k as int),
{
    proof {
        lemma_colon_end_bounds(cs@, k as int);
    }
    let mut e: usize = k;
    while e < cs.len()
        invariant
            k <= e <= cs@.len(),
            colon_end(cs@, k as int) == colon_end(cs@, e as int),
        ensures
            k <= e <= cs@.len(),
            colon_end(cs@, k as int) == e,
        decreases cs@.len() - e,
    {
        if cs[e] == ':' {
            break;
        }
        e += 1;
    }
    let mut h: Vec<char> = Vec::new();
    let mut i: usize = k;
    while i < e
        invariant
            k <= i <= e <= cs@.len(),
            h@ == cs@.subrange(k as int, i as int),
        decreases e - i,
    {
        h.push(cs[i]);
        proof {
            assert(h@ =~= cs@.subrange(k as int, i + 1 as int));
        }
        i += 1;
    }
    proof {
        assert(h@ =~= cs@.subrange(k as int, e as int));
    }
    h
}

/// Runtime test of `allowed_host`.
fn allowed_host_x(h: &Vec<char>) -> (r: bool)
    ensures
        r == allowed_host(h@),
{
    let localhost: Vec<char> = vec!['l', 'o', 'c', 'a', 'l', 'h', 'o', 's', 't'];
    let loopback: Vec<char> = vec!['1', '2', '7', '.'];
    let range172: Vec<char> = vec!['1', '7', '2', '.'];
    let range192: Vec<char> = vec!['1', '9', '2', '.', '1', '6', '8', '.'];
    proof {
        reveal_strlit("localhost");
        reveal_strlit("127.");
        reveal_strlit("172.");
        reveal_strlit("192.168.");
        assert(localhost@ =~= "localhost"@);
        assert(loopback@ =~= "127."@);
        assert(range172@ =~= "172."@);
        assert(range192@ =~= "192.168."@);
    }
    if h.len() == 9 && matches_at_x(h, 0, &localhost) {
        proof {
            assert(h@ =~= "localhost"@) by {
                assert(h@.subrange(0, 9) =~= h@);
            }
        }
        return true;
    }
    proof {
        if h@ == "localhost"@ {
            assert(h@.len() == 9);
            assert(h@.subrange(0, 9) =~= h@);
        }
    }
    matches_at_x(h, 0, &loopback) || matches_at_x(h, 0, &range172) || matches_at_x(h, 0, &range192)
}

/// Whether requests from this origin are accepted: http or https, from
/// localhost, loopback, or the private 172.x and 192.168.x ranges.
pub fn origin_allowed(origin: &str) -> (r: bool)
    ensures
        r == origin_allowed_spec(origin@),
{
    let cs = crate::text::str_to_chars(origin);
    let http: Vec<char> = vec!['h', 't', 't', 'p', ':', '/', '/'];
    let https: Vec<char> = vec!['h', 't', 't', 'p', 's', ':', '/', '/'];
    proof {
        reveal_strlit("http://");
        reveal_strlit("https://");
        assert(http@ =~= "http://"@);
        assert(https@ =~= "https://"@);
        lemma_colon_end_bounds(cs@, 0);
    }
    if cs.len() >= 7 && matches_at_x(&cs, 0, &http) {
        let h = host_chars(&cs, 7);
        if allowed_host_x(&h) {
            return true;
        }
    }
    if cs.len() >= 8 && matches_at_x(&cs, 0, &https) {
        let h = host_chars(&cs, 8);
        return allowed_host_x(&h);
    }
    proof {
        if matches_at(cs@, 0, "http://"@) {
            assert(cs@.len() >= 7);
        }
        if matches_at(cs@, 0, "https://"@) {
            assert(cs@.len() >= 8);
        }
    }
    false
}

} // verus!
