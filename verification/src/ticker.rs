//! Ticker validation.
//!
//! A user-typed ticker is matched, ignoring ASCII case, against the small
//! allow-list of assets this utility knows, and resolved to the canonical
//! identifier the remote API expects.

use vstd::prelude::*;
use vstd::string::StrSliceExecFns;
use vstd::string::StringExecFns;

verus! {

/// ASCII lowercase of one character; anything outside `A..Z` is unchanged.
pub open spec fn lower_char(c: char) -> char {
    if 'A' as int <= c as int && c as int <= 'Z' as int {
        ((c as u8) + 32) as char
    } else {
        c
    }
}

/// ASCII lowercase of a string of characters.
pub open spec fn lower(s: Seq<char>) -> Seq<char> {
    s.map_values(|c: char| lower_char(c))
}

/// The canonical asset identifier a ticker resolves to, ignoring ASCII case,
/// or `None` for a ticker outside the allow-list.
pub open spec fn canonical_of(s: Seq<char>) -> Option<Seq<char>> {
    let l = lower(s);
    if l == "btc"@ || l == "bitcoin"@ {
        Some("bitcoin"@)
    } else if l == "eth"@ || l == "ethereum"@ {
        Some("ethereum"@)
    } else if l == "ada"@ || l == "cardano"@ {
        Some("cardano"@)
    } else {
        None
    }
}

fn lower_char_exec(c: char) -> (r: char)
    ensures
        r == lower_char(c),
{
    let u = c as u32;
    if 65 <= u && u <= 90 {
        ((c as u8) + 32) as char
    } else {
        c
    }
}

/// Whether `s`, lowercased, equals `lit`.
fn lower_matches(s: &str, lit: &str) -> (r: bool)
    ensures
        r == (lower(s@) == lit@),
{
    let n = s.unicode_len();
    let m = lit.unicode_len();
    if n != m {
        proof {
            assert(lower(s@).len() == s@.len());
        }
        return false;
    }
    let mut i: usize = 0;
    while i < n
        invariant
            n == s@.len(),
            n == lit@.len(),
            i <= n,
            forall|j: int| 0 <= j < i ==> lower(s@)[j] == lit@[j],
        decreases n - i,
    {
        let c = lower_char_exec(s.get_char(i));
        let c2 = lit.get_char(i);
        if c != c2 {
            proof {
                assert(lower(s@)[i as int] != lit@[i as int]);
            }
            return false;
        }
        i += 1;
    }
    proof {
        assert(lower(s@) =~= lit@);
    }
    true
}

/// Resolve a user-typed ticker to the canonical asset identifier, ignoring
/// ASCII case. Recognized: `btc`/`bitcoin`, `eth`/`ethereum`, `ada`/`cardano`;
/// anything else is rejected for the caller to prompt again.
pub fn resolve_ticker(s: &str) -> (r: Option<String>)
    ensures
        r is Some <==> canonical_of(s@) is Some,
        r is Some ==> r->0@ == canonical_of(s@)->0,
{
    if lower_matches(s, "btc") || lower_matches(s, "bitcoin") {
        Some(String::from_str("bitcoin"))
    } else if lower_matches(s, "eth") || lower_matches(s, "ethereum") {
        Some(String::from_str("ethereum"))
    } else if lower_matches(s, "ada") || lower_matches(s, "cardano") {
        Some(String::from_str("cardano"))
    } else {
        None
    }
}

} // verus!
