//! Character-level string utilities: exact and ASCII-case-insensitive
//! comparison, whitespace trimming, and decimal parsing.

use vstd::prelude::*;
use vstd::string::*;

verus! {

/// The whitespace characters stripped from the ends of a protocol line.
pub open spec fn is_ws_char(c: char) -> bool {
    c == ' ' || c == '\t' || c == '\r' || c == '\n'
}

/// Whitespace test for one character.
pub fn is_ws(c: char) -> (r: bool)
    ensures
        r == is_ws_char(c),
{
    c == ' ' || c == '\t' || c == '\r' || c == '\n'
}

/// Exact equality of two string slices, decided character by character.
pub fn str_eq(a: &str, b: &str) -> (r: bool)
    ensures
        r == (a@ == b@),
{
    let na = a.unicode_len();
    let nb = b.unicode_len();
    if na != nb {
        proof {
            assert(a@ != b@) by {
                if a@ == b@ {
                    assert(a@.len() == b@.len());
                }
            }
        }
        return false;
    }
    let mut i: usize = 0;
    while i < na
        invariant
            na == a@.len(),
            na == b@.len(),
            i <= na,
            forall|j: int| 0 <= j < i ==> a@[j] == b@[j],
        decreases na - i,
    {
        let ca = a.get_char(i);
        let cb = b.get_char(i);
        if ca != cb {
            proof {
                assert(a@[i as int] != b@[i as int]);
            }
            return false;
        }
        i += 1;
    }
    proof {
        assert(a@ =~= b@);
    }
    true
}

pub open spec fn is_upper_char(c: char) -> bool {
    65 <= c as int && c as int <= 90
}

/// Two characters are equal up to ASCII case.
pub open spec fn ci_char_eq(a: char, b: char) -> bool {
    ||| a == b
    ||| (is_upper_char(a) && b as int == a as int + 32)
    ||| (is_upper_char(b) && a as int == b as int + 32)
}

/// Two character sequences are equal up to ASCII case.
pub open spec fn ci_seq_eq(s: Seq<char>, t: Seq<char>) -> bool {
    s.len() == t.len() && forall|i: int| 0 <= i < s.len() ==> ci_char_eq(s[i], t[i])
}

fn ci_char_eq_exec(a: char, b: char) -> (r: bool)
    ensures
        r == ci_char_eq(a, b),
{
    let x = a as u32;
    let y = b as u32;
    a == b || (65 <= x && x <= 90 && y == x + 32) || (65 <= y && y <= 90 && x == y + 32)
}

/// ASCII-case-insensitive equality of two string slices.
pub fn str_ci_eq(a: &str, b: &str) -> (r: bool)
    ensures
        r == ci_seq_eq(a@, b@),
{
    let na = a.unicode_len();
    let nb = b.unicode_len();
    if na != nb {
        return false;
    }
    let mut i: usize = 0;
    while i < na
        invariant
            na == a@.len(),
            na == b@.len(),
            i <= na,
            forall|j: int| 0 <= j < i ==> ci_char_eq(a@[j], b@[j]),
        decreases na - i,
    {
        let ca = a.get_char(i);
        let cb = b.get_char(i);
        if !ci_char_eq_exec(ca, cb) {
            return false;
        }
        i += 1;
    }
    true
}

/// `s` with leading whitespace dropped.
pub open spec fn trim_front(s: Seq<char>) -> Seq<char>
    decreases s.len(),
{
    if s.len() > 0 && is_ws_char(s[0]) {
        trim_front(s.drop_first())
    } else {
        s
    }
}

/// `s` with trailing whitespace dropped.
pub open spec fn trim_back(s: Seq<char>) -> Seq<char>
    decreases s.len(),
{
    if s.len() > 0 && is_ws_char(s.last()) {
        trim_back(s.drop_last())
    } else {
        s
    }
}

/// `s` with whitespace dropped from both ends.
pub open spec fn trim(s: Seq<char>) -> Seq<char> {
    trim_back(trim_front(s))
}

pub proof fn lemma_trim_front_skip(s: Seq<char>, lo: int)
    requires
        0 <= lo <= s.len(),
        forall|j: int| 0 <= j < lo ==> is_ws_char(s[j]),
        lo < s.len() ==> !is_ws_char(s[lo]),
    ensures
        trim_front(s) == s.skip(lo),
    decreases lo,
{
    if lo == 0 {
        assert(s.skip(0) =~= s);
    } else {
        assert(is_ws_char(s[0]));
        lemma_trim_front_skip(s.drop_first(), lo - 1);
        assert(s.drop_first().skip(lo - 1) =~= s.skip(lo));
    }
}

pub proof fn lemma_trim_back_take(s: Seq<char>, hi: int)
    requires
        0 <= hi <= s.len(),
        forall|j: int| hi <= j < s.len() ==> is_ws_char(s[j]),
        hi > 0 ==> !is_ws_char(s[hi - 1]),
    ensures
        trim_back(s) == s.take(hi),
    decreases s.len(),
{
    if hi == s.len() {
        if s.len() > 0 {
            assert(!is_ws_char(s.last()));
        }
        assert(s.take(hi) =~= s);
    } else {
        assert(is_ws_char(s.last()));
        lemma_trim_back_take(s.drop_last(), hi);
        assert(s.drop_last().take(hi) =~= s.take(hi));
    }
}

/// Characterizes `trim` by the first and last non-whitespace positions.
pub proof fn lemma_trim_subrange(s: Seq<char>, lo: int, hi: int)
    requires
        0 <= lo <= hi <= s.len(),
        forall|j: int| 0 <= j < lo ==> is_ws_char(s[j]),
        forall|j: int| hi <= j < s.len() ==> is_ws_char(s[j]),
        lo < hi ==> !is_ws_char(s[lo]) && !is_ws_char(s[hi - 1]),
        lo == hi ==> lo == s.len(),
    ensures
        trim(s) == s.subrange(lo, hi),
{
    lemma_trim_front_skip(s, lo);
    let m = s.skip(lo);
    assert forall|j: int| hi - lo <= j < m.len() implies is_ws_char(m[j]) by {
        assert(m[j] == s[j + lo]);
    }
    if hi > lo {
        assert(m[hi - lo - 1] == s[hi - 1]);
    }
    lemma_trim_back_take(m, hi - lo);
    assert(m.take(hi - lo) =~= s.subrange(lo, hi));
}

/// ASCII-case equivalence is transitive through a third sequence, so two
/// case-variants of a string agree on every case-insensitive comparison.
pub proof fn lemma_ci_seq_eq_trans(s: Seq<char>, t: Seq<char>, u: Seq<char>)
    requires
        ci_seq_eq(s, t),
    ensures
        ci_seq_eq(s, u) == ci_seq_eq(t, u),
{
    if ci_seq_eq(s, u) {
        assert forall|i: int| 0 <= i < t.len() implies ci_char_eq(t[i], u[i]) by {
            assert(ci_char_eq(s[i], t[i]));
            assert(ci_char_eq(s[i], u[i]));
        }
    }
    if ci_seq_eq(t, u) {
        assert forall|i: int| 0 <= i < s.len() implies ci_char_eq(s[i], u[i]) by {
            assert(ci_char_eq(s[i], t[i]));
            assert(ci_char_eq(t[i], u[i]));
        }
    }
}

} // verus!
