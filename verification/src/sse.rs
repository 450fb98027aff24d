//! Line framing for a server-sent-event byte stream: a growable byte buffer
//! from which every newline-terminated line is extracted as it completes,
//! whatever the chunk boundaries were.

use vstd::prelude::*;

verus! {

pub const NL: u8 = 10;

/// Does the byte sequence contain a newline?
pub open spec fn has_nl(s: Seq<u8>) -> bool {
    exists|i: int| 0 <= i < s.len() && s[i] == NL
}

/// Index of the first newline; `s.len()` if there is none.
pub open spec fn first_nl(s: Seq<u8>) -> int
    decreases s.len(),
{
    if s.len() == 0 {
        0
    } else if s[0] == NL {
        0
    } else {
        1 + first_nl(s.drop_first())
    }
}

pub proof fn lemma_first_nl(s: Seq<u8>)
    ensures
        0 <= first_nl(s) <= s.len(),
        has_nl(s) <==> first_nl(s) < s.len(),
        first_nl(s) < s.len() ==> s[first_nl(s)] == NL,
        forall|j: int| 0 <= j < first_nl(s) ==> s[j] != NL,
    decreases s.len(),
{
    if s.len() == 0 {
        assert(!has_nl(s));
    } else if s[0] == NL {
        assert(has_nl(s));
    } else {
        lemma_first_nl(s.drop_first());
        let d = s.drop_first();
        assert(forall|j: int| 0 <= j < d.len() ==> d[j] == s[j + 1]);
        assert forall|j: int| 0 <= j < first_nl(s) implies s[j] != NL by {
            if j > 0 {
                assert(d[j - 1] != NL);
            }
        }
        if has_nl(s) {
            let i = choose|i: int| 0 <= i < s.len() && s[i] == NL;
            assert(i > 0);
            assert(d[i - 1] == NL);
            assert(has_nl(d));
        }
        if has_nl(d) {
            let i = choose|i: int| 0 <= i < d.len() && d[i] == NL;
            assert(s[i + 1] == NL);
            assert(has_nl(s));
        }
    }
}

#[via_fn]
proof fn complete_lines_decreases(s: Seq<u8>) {
    lemma_first_nl(s);
}

/// The newline-terminated lines of `s`, in order, without their newlines.
pub open spec fn complete_lines(s: Seq<u8>) -> Seq<Seq<u8>>
    decreases s.len(),
    via complete_lines_decreases
{
    if has_nl(s) {
        seq![s.take(first_nl(s))] + complete_lines(s.skip(first_nl(s) + 1))
    } else {
        Seq::empty()
    }
}

#[via_fn]
proof fn line_rest_decreases(s: Seq<u8>) {
    lemma_first_nl(s);
}

/// The bytes of `s` after its last newline: the still-unterminated tail.
pub open spec fn line_rest(s: Seq<u8>) -> Seq<u8>
    decreases s.len(),
    via line_rest_decreases
{
    if has_nl(s) {
        line_rest(s.skip(first_nl(s) + 1))
    } else {
        s
    }
}

pub proof fn lemma_first_nl_append(s: Seq<u8>, t: Seq<u8>)
    requires
        has_nl(s),
    ensures
        has_nl(s + t),
        first_nl(s + t) == first_nl(s),
    decreases s.len(),
{
    lemma_first_nl(s);
    assert((s + t)[first_nl(s)] == s[first_nl(s)]);
    assert(has_nl(s + t));
    if s[0] == NL {
        assert((s + t)[0] == NL);
    } else {
        let d = s.drop_first();
        if !has_nl(d) {
            lemma_first_nl(d);
            let i = choose|i: int| 0 <= i < s.len() && s[i] == NL;
            assert(d[i - 1] == NL);
            assert(false);
        }
        lemma_first_nl_append(d, t);
        assert((s + t).drop_first() =~= d + t);
        assert((s + t)[0] == s[0]);
    }
}

/// Splitting into lines commutes with appending more bytes: the lines of
/// `s + t` are the lines of `s` followed by the lines of the unterminated
/// tail of `s` extended by `t`.
pub proof fn lemma_lines_append(s: Seq<u8>, t: Seq<u8>)
    ensures
        complete_lines(s + t) == complete_lines(s) + complete_lines(line_rest(s) + t),
        line_rest(s + t) == line_rest(line_rest(s) + t),
    decreases s.len(),
{
    if has_nl(s) {
        let k = first_nl(s);
        lemma_first_nl(s);
        lemma_first_nl_append(s, t);
        assert((s + t).take(k) =~= s.take(k));
        assert((s + t).skip(k + 1) =~= s.skip(k + 1) + t);
        lemma_lines_append(s.skip(k + 1), t);
        assert(complete_lines(s + t) == seq![s.take(k)] + complete_lines(s.skip(k + 1) + t));
        assert(complete_lines(s) + complete_lines(line_rest(s) + t) =~= seq![s.take(k)]
            + (complete_lines(s.skip(k + 1)) + complete_lines(line_rest(s.skip(k + 1)) + t)));
    } else {
        assert(line_rest(s) == s);
        assert(complete_lines(s) == Seq::<Seq<u8>>::empty());
        assert(complete_lines(s) + complete_lines(s + t) =~= complete_lines(s + t));
    }
}

/// Find the first newline in `buf`, if any.
#[verifier::loop_isolation(false)]
pub fn find_newline(buf: &Vec<u8>) -> (r: Option<usize>)
    ensures
        match r {
            Some(i) => i == first_nl(buf@) && i < buf@.len(),
            None => !has_nl(buf@),
        },
{
    proof {
        lemma_first_nl(buf@);
    }
    let n = buf.len();
    let mut i: usize = 0;
    while i < n
        invariant
            i <= n,
            forall|j: int| 0 <= j < i ==> buf@[j] != NL,
        decreases n - i,
    {
        if buf[i] == NL {
            proof {
                if first_nl(buf@) < i {
                    assert(buf@[first_nl(buf@)] != NL);
                }
                assert(has_nl(buf@));
            }
            return Some(i);
        }
        i += 1;
    }
    proof {
        if has_nl(buf@) {
            assert(buf@[first_nl(buf@)] != NL);
        }
    }
    None
}

/// Split the first complete line off the front of `buf`, if one is there.
#[verifier::loop_isolation(false)]
pub fn take_line(buf: &mut Vec<u8>) -> (r: Option<Vec<u8>>)
    ensures
        match r {
            Some(line) => {
                &&& has_nl(old(buf)@)
                &&& line@ == old(buf)@.take(first_nl(old(buf)@))
                &&& final(buf)@ == old(buf)@.skip(first_nl(old(buf)@) + 1)
            },
            None => !has_nl(old(buf)@) && final(buf)@ == old(buf)@,
        },
{
    proof {
        lemma_first_nl(buf@);
    }
    let found = find_newline(buf);
    match found {
        None => None,
        Some(i) => {
            let mut line: Vec<u8> = Vec::new();
            let mut j: usize = 0;
            while j < i
                invariant
                    j <= i,
                    i < buf@.len(),
                    buf@ == old(buf)@,
                    line@ == old(buf)@.take(j as int),
                decreases i - j,
            {
                line.push(buf[j]);
                proof {
                    assert(old(buf)@.take(j + 1) =~= old(buf)@.take(j as int).push(
                        old(buf)@[j as int]));
                }
                j += 1;
            }
            let n = buf.len();
            assert(i < n);
            let tail = buf.split_off(i + 1);
            *buf = tail;
            proof {
                assert(buf@ =~= old(buf)@.skip(first_nl(old(buf)@) + 1));
            }
            Some(line)
        },
    }
}

} // verus!
