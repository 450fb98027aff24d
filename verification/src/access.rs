//! The pre-flight access gate: a comma-separated allow-list of access
//! codes, checked before any network work.

use vstd::prelude::*;
use vstd::string::*;
use crate::text::{is_ws, is_ws_char, trim, lemma_trim_subrange, str_eq};

verus! {

pub open spec fn has_comma(s: Seq<char>) -> bool {
    exists|i: int| 0 <= i < s.len() && s[i] == ','
}

/// Index of the first comma; `s.len()` if there is none.
pub open spec fn first_comma(s: Seq<char>) -> int
    decreases s.len(),
{
    if s.len() == 0 {
        0
    } else if s[0] == ',' {
        0
    } else {
        1 + first_comma(s.drop_first())
    }
}

proof fn lemma_first_comma(s: Seq<char>)
    ensures
        0 <= first_comma(s) <= s.len(),
        has_comma(s) <==> first_comma(s) < s.len(),
        first_comma(s) < s.len() ==> s[first_comma(s)] == ',',
        forall|j: int| 0 <= j < first_comma(s) ==> s[j] != ',',
    decreases s.len(),
{
    if s.len() == 0 {
    } else if s[0] == ',' {
        assert(has_comma(s));
    } else {
        lemma_first_comma(s.drop_first());
        let d = s.drop_first();
        assert(forall|j: int| 0 <= j < d.len() ==> d[j] == s[j + 1]);
        assert forall|j: int| 0 <= j < first_comma(s) implies s[j] != ',' by {
            if j > 0 {
                assert(d[j - 1] != ',');
            }
        }
        if has_comma(s) {
            let i = choose|i: int| 0 <= i < s.len() && s[i] == ',';
            assert(i > 0);
            assert(d[i - 1] == ',');
            assert(has_comma(d));
        }
        if has_comma(d) {
            let i = choose|i: int| 0 <= i < d.len() && d[i] == ',';
            assert(s[i + 1] == ',');
            assert(has_comma(s));
        }
    }
}

#[via_fn]
proof fn access_codes_decreases(s: Seq<char>) {
    lemma_first_comma(s);
}

/// The codes of a comma-separated list: each piece trimmed, empty pieces
/// dropped.
pub open spec fn access_codes(s: Seq<char>) -> Seq<Seq<char>>
    decreases s.len(),
    via access_codes_decreases
{
    if has_comma(s) {
        let piece = trim(s.take(first_comma(s)));
        (if piece.len() > 0 {
            seq![piece]
        } else {
            Seq::empty()
        }) + access_codes(s.skip(first_comma(s) + 1))
    } else {
        let piece = trim(s);
        if piece.len() > 0 {
            seq![piece]
        } else {
            Seq::empty()
        }
    }
}

/// Find the first comma at or after `pos`.
#[verifier::loop_isolation(false)]
fn find_comma(s: &str, pos: usize, n: usize) -> (r: usize)
    requires
        pos <= n,
        n == s@.len(),
    ensures
        pos <= r <= n,
        r - pos == first_comma(s@.skip(pos as int)),
{
    proof {
        lemma_first_comma(s@.skip(pos as int));
    }
    let mut j = pos;
    while j < n
        invariant
            pos <= j <= n,
            forall|k: int| pos <= k < j ==> s@[k] != ',',
        decreases n - j,
    {
        if s.get_char(j) == ',' {
            proof {
                let tail = s@.skip(pos as int);
                let f = first_comma(tail);
                assert(forall|k: int| 0 <= k < tail.len() ==> tail[k] == s@[k + pos]);
                assert(tail[j - pos] == ',');
                assert(f <= j - pos);
                if f < j - pos {
                    assert(s@[f + pos] != ',');
                    assert(tail[f] == ',');
                }
            }
            return j;
        }
        j += 1;
    }
    proof {
        let tail = s@.skip(pos as int);
        assert(forall|k: int| 0 <= k < tail.len() ==> tail[k] == s@[k + pos]);
        if has_comma(tail) {
            let i = choose|i: int| 0 <= i < tail.len() && tail[i] == ',';
            assert(s@[i + pos] == ',');
        }
    }
    n
}

/// Trim the segment `[pos, end)` of `s`, returning absolute bounds.
#[verifier::loop_isolation(false)]
fn trim_segment(s: &str, pos: usize, end: usize) -> (r: (usize, usize))
    requires
        pos <= end <= s@.len(),
    ensures
        pos <= r.0 <= r.1 <= end,
        trim(s@.subrange(pos as int, end as int)) == s@.subrange(r.0 as int, r.1 as int),
{
    let mut lo = pos;
    while lo < end && is_ws(s.get_char(lo))
        invariant
            pos <= lo <= end,
            forall|j: int| pos <= j < lo ==> is_ws_char(s@[j]),
        decreases end - lo,
    {
        lo += 1;
    }
    let mut hi = end;
    while hi > lo && is_ws(s.get_char(hi - 1))
        invariant
            lo <= hi <= end,
            lo < end ==> lo < hi,
            forall|j: int| hi <= j < end ==> is_ws_char(s@[j]),
        decreases hi,
    {
        hi -= 1;
    }
    proof {
        let seg = s@.subrange(pos as int, end as int);
        assert(forall|j: int| 0 <= j < seg.len() ==> seg[j] == s@[j + pos]);
        lemma_trim_subrange(seg, lo - pos, hi - pos);
        assert(seg.subrange(lo - pos, hi - pos) =~= s@.subrange(lo as int, hi as int));
    }
    (lo, hi)
}

/// Parse the configured allow-list: split at commas, trim each piece,
/// drop the empty ones.
#[verifier::loop_isolation(false)]
pub fn parse_access_list(s: &str) -> (r: Vec<String>)
    ensures
        r@.map_values(|x: String| x@) == access_codes(s@),
{
    let n = s.unicode_len();
    let mut out: Vec<String> = Vec::new();
    let mut pos: usize = 0;
    let mut done = false;
    proof {
        assert(s@.skip(0) =~= s@);
        assert(out@.map_values(|x: String| x@) =~= Seq::<Seq<char>>::empty());
    }
    while !done
        invariant
            pos <= n,
            n == s@.len(),
            done ==> access_codes(s@) == out@.map_values(|x: String| x@),
            !done ==> access_codes(s@) == out@.map_values(|x: String| x@) + access_codes(
                s@.skip(pos as int),
            ),
        decreases n - pos + (if done { 0int } else { 1int }),
    {
        let ghost tail = s@.skip(pos as int);
        let j = find_comma(s, pos, n);
        let (lo, hi) = trim_segment(s, pos, j);
        let ghost piece = trim(s@.subrange(pos as int, j as int));
        proof {
            lemma_first_comma(tail);
            assert(tail.take(first_comma(tail)) =~= s@.subrange(pos as int, j as int));
        }
        if lo < hi {
            let code = s.substring_char(lo, hi).to_owned();
            out.push(code);
            proof {
                assert(out@.map_values(|x: String| x@) =~= out@.drop_last().map_values(
                    |x: String| x@,
                ).push(piece));
            }
        } else {
            proof {
                assert(piece.len() == 0);
            }
        }
        if j == n {
            done = true;
            proof {
                assert(!has_comma(tail));
                let add = if piece.len() > 0 {
                    seq![piece]
                } else {
                    Seq::<Seq<char>>::empty()
                };
                assert(access_codes(tail) == add);
                assert(out@.map_values(|x: String| x@) =~= (out@.map_values(|x: String| x@)
                    + Seq::<Seq<char>>::empty()));
            }
        } else {
            proof {
                assert(has_comma(tail));
                assert(tail.skip(first_comma(tail) + 1) =~= s@.skip(j + 1));
                let add = if piece.len() > 0 {
                    seq![piece]
                } else {
                    Seq::<Seq<char>>::empty()
                };
                assert(access_codes(tail) == add + access_codes(s@.skip(j + 1)));
            }
            pos = j + 1;
        }
    }
    out
}

/// Is the code one of the configured codes?
pub open spec fn code_in_list(codes: Seq<Seq<char>>, code: Seq<char>) -> bool {
    exists|i: int| 0 <= i < codes.len() && codes[i] == code
}

#[verifier::loop_isolation(false)]
pub fn contains_code(list: &Vec<String>, code: &str) -> (r: bool)
    ensures
        r == code_in_list(list@.map_values(|x: String| x@), code@),
{
    let n = list.len();
    let mut i: usize = 0;
    while i < n
        invariant
            i <= n,
            forall|j: int| 0 <= j < i ==> list@[j]@ != code@,
        decreases n - i,
    {
        if str_eq(list[i].as_str(), code) {
            proof {
                assert(list@.map_values(|x: String| x@)[i as int] == code@);
            }
            return true;
        }
        i += 1;
    }
    proof {
        let m = list@.map_values(|x: String| x@);
        if code_in_list(m, code@) {
            let k = choose|k: int| 0 <= k < m.len() && m[k] == code@;
            assert(list@[k]@ == code@);
        }
    }
    false
}

/// Whether a request passes the access check: without a configured
/// allow-list, or with an empty one, every request passes; otherwise the
/// code carried by the request (an absent one counts as empty) must be on
/// the list.
pub open spec fn spec_access_allowed(list_var: Option<Seq<char>>, code: Option<Seq<char>>) -> bool {
    match list_var {
        None => true,
        Some(lv) => {
            let cs = access_codes(lv);
            cs.len() == 0 || code_in_list(
                cs,
                match code {
                    Some(c) => c,
                    None => Seq::empty(),
                },
            )
        },
    }
}

/// The pre-flight check run before any network work; failure is the
/// access-denied error, surfaced before a Start event can exist.
pub fn check_access(list_var: Option<&String>, code: Option<&String>) -> (r: Result<(), String>)
    ensures
        r is Ok <==> spec_access_allowed(
            match list_var {
                Some(l) => Some(l@),
                None => None,
            },
            match code {
                Some(c) => Some(c@),
                None => None,
            },
        ),
        r matches Err(e) ==> e@ == "Invalid or missing access code"@,
{
    match list_var {
        None => Ok(()),
        Some(lv) => {
            let codes = parse_access_list(lv.as_str());
            if codes.len() == 0 {
                return Ok(());
            }
            let ok = match code {
                Some(c) => contains_code(&codes, c.as_str()),
                None => contains_code(&codes, ""),
            };
            proof {
                if code is None {
                    reveal_strlit("");
                    assert(""@ =~= Seq::<char>::empty());
                }
            }
            if ok {
                Ok(())
            } else {
                Err("Invalid or missing access code".to_owned())
            }
        },
    }
}

/// The UI's access-code check request.
#[derive(Debug, Clone, PartialEq)]
pub struct VerifyAccessCodeRequest {
    pub access_code: String,
}

/// The UI's access-code check answer.
#[derive(Debug, Clone, PartialEq)]
pub struct VerifyAccessCodeResponse {
    pub valid: bool,
    pub message: String,
}

/// Check one access code against the configured list: with no codes
/// configured every code passes; an empty code is asked for; otherwise
/// membership decides.
pub fn verify_access_code(access_code: String, list_var: Option<&String>) -> (r: Result<
    VerifyAccessCodeResponse,
    String,
>)
    ensures
        r matches Ok(resp) && {
            let cs = access_codes(
                match list_var {
                    Some(l) => l@,
                    None => Seq::empty(),
                },
            );
            if cs.len() == 0 {
                resp.valid && resp.message@ == "No access code required"@
            } else if access_code@.len() == 0 {
                !resp.valid && resp.message@ == "Access code is required"@
            } else if code_in_list(cs, access_code@) {
                resp.valid && resp.message@ == "Access code is valid"@
            } else {
                !resp.valid && resp.message@ == "Invalid access code"@
            }
        },
{
    let codes = match list_var {
        Some(l) => parse_access_list(l.as_str()),
        None => {
            let ghost e = Seq::<char>::empty();
            proof {
                assert(!has_comma(e));
                assert(trim(e).len() == 0);
                assert(access_codes(e) == Seq::<Seq<char>>::empty());
            }
            Vec::new()
        },
    };
    if codes.len() == 0 {
        return Ok(
            VerifyAccessCodeResponse {
                valid: true,
                message: "No access code required".to_owned(),
            },
        );
    }
    if access_code.as_str().is_empty() {
        return Ok(
            VerifyAccessCodeResponse {
                valid: false,
                message: "Access code is required".to_owned(),
            },
        );
    }
    if contains_code(&codes, access_code.as_str()) {
        Ok(VerifyAccessCodeResponse { valid: true, message: "Access code is valid".to_owned() })
    } else {
        Ok(VerifyAccessCodeResponse { valid: false, message: "Invalid access code".to_owned() })
    }
}

} // verus!
