//! Strict validation of WAMP URIs.

use vstd::prelude::*;

verus! {

/// A character a strict URI token may contain: a lowercase ASCII letter,
/// a digit, or an underscore.
pub open spec fn uri_char_ok(c: char) -> bool {
    ('a' <= c && c <= 'z') || ('0' <= c && c <= '9') || c == '_'
}

/// A strict URI: non-empty tokens of lowercase letters, digits and
/// underscores, separated by single dots, and not under the reserved
/// `wamp.` prefix.
pub open spec fn strict_uri_ok(s: Seq<char>) -> bool {
    &&& s.len() > 0
    &&& forall|i: int| 0 <= i < s.len() ==> uri_char_ok(#[trigger] s[i]) || s[i] == '.'
    &&& s[0] != '.'
    &&& s[s.len() - 1] != '.'
    &&& forall|i: int| 0 <= i < s.len() - 1 ==> !(#[trigger] s[i] == '.' && s[i + 1] == '.')
    &&& !(s.len() >= 5 && s.subrange(0, 5) == "wamp."@)
}

/// Returns whether a URI is valid under the strict rules: dot-separated
/// non-empty tokens of lowercase letters, digits and underscores, outside
/// the reserved `wamp.` prefix.
#[verifier::loop_isolation(false)]
pub fn is_valid_strict_uri(in_uri: &str) -> (r: bool)
    ensures
        r == strict_uri_ok(in_uri@),
{
    let n = in_uri.unicode_len();
    if n == 0 {
        return false;
    }
    let mut i: usize = 0;
    let mut prev_dot = true;
    while i < n
        invariant
            0 <= i <= n,
            n == in_uri@.len(),
            n > 0,
            forall|j: int| 0 <= j < i ==> uri_char_ok(#[trigger] in_uri@[j]) || in_uri@[j] == '.',
            i > 0 ==> in_uri@[0] != '.',
            prev_dot == (i == 0 || in_uri@[i - 1] == '.'),
            forall|j: int| 0 <= j < i - 1 ==> !(#[trigger] in_uri@[j] == '.' && in_uri@[j + 1]
                == '.'),
        decreases n - i,
    {
        let c = in_uri.get_char(i);
        if c == '.' {
            if prev_dot {
                return false;
            }
            prev_dot = true;
        } else {
            let ok = ('a' <= c && c <= 'z') || ('0' <= c && c <= '9') || c == '_';
            if !ok {
                return false;
            }
            prev_dot = false;
        }
        i = i + 1;
    }
    if prev_dot {
        // the uri ends in a dot: its last token is empty
        return false;
    }
    if n >= 5 {
        let w = in_uri.get_char(0) == 'w' && in_uri.get_char(1) == 'a' && in_uri.get_char(2) == 'm'
            && in_uri.get_char(3) == 'p' && in_uri.get_char(4) == '.';
        if w {
            proof {
                reveal_strlit("wamp.");
                assert(in_uri@.subrange(0, 5) =~= "wamp."@);
            }
            return false;
        }
        proof {
            reveal_strlit("wamp.");
            if in_uri@.subrange(0, 5) == "wamp."@ {
                assert(in_uri@.subrange(0, 5)[0] == 'w' && in_uri@.subrange(0, 5)[1] == 'a'
                    && in_uri@.subrange(0, 5)[2] == 'm' && in_uri@.subrange(0, 5)[3] == 'p'
                    && in_uri@.subrange(0, 5)[4] == '.');
                assert(in_uri@[0] == 'w' && in_uri@[1] == 'a' && in_uri@[2] == 'm' && in_uri@[3]
                    == 'p' && in_uri@[4] == '.');
            }
        }
    }
    true
}

} // verus!
